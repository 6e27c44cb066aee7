//! Export of the catalogue of additional reports and data processors from the
//! database: the queries, the comparison with what was exported before, the
//! unpacking of stored values and the names of the files.

use vstd::prelude::*;

use crate::codec;
use crate::command_builder::{self, IbcmdDbAuth};
use crate::config::{self, AppConfig, AuthType};
use crate::error::{ErrorView, ExportError};
use crate::runner::CommandResult;
use crate::sql_signals;
use crate::storage_mapping::MappingView;
use crate::strmap::{self, StrMap};
use crate::text;

pub use crate::storage_mapping::StorageMapping;

verus! {

// File names.

/// The characters that the file system forbids.
pub const BAD_CHARS: &'static str = "<>:\"/\\|?*";

/// The characters that make trouble on command lines.
pub const SOFT_BAD_CHARS: &'static str = ",;()[]{}!@#$%^&+=`~'.";

/// A character that a file name is not given.
pub open spec fn unsafe_char(c: char) -> bool {
    BAD_CHARS@.contains(c) || SOFT_BAD_CHARS@.contains(c) || (c as u32) < 0x20
}

/// A name with an underscore for every unsafe character.
pub open spec fn cleaned(name: Seq<char>) -> Seq<char> {
    name.map_values(
        |c: char|
            if unsafe_char(c) {
                '_'
            } else {
                c
            },
    )
}

/// A name with one underscore for every run of them.
pub open spec fn squeezed(s: Seq<char>) -> Seq<char>
    decreases s.len(),
{
    if s.len() == 0 {
        s
    } else {
        let t = squeezed(s.drop_last());
        if s.last() == '_' && t.len() > 0 && t.last() == '_' {
            t
        } else {
            t.push(s.last())
        }
    }
}

/// The file name that stands for a name.
pub open spec fn safe_name(name: Seq<char>) -> Seq<char> {
    let all = text::trim_end_of(squeezed(cleaned(name)), " ._"@);
    let short = if all.len() > 80 {
        text::trim_end_of(all.take(80), " _"@)
    } else {
        all
    };
    if short.len() == 0 {
        "_unnamed"@
    } else {
        short
    }
}

/// The file name that stands for a name: unsafe characters and runs of
/// underscores become one underscore, blanks, dots and underscores at the end
/// go, and at most 80 characters stay.
pub fn sanitize_filename(name: &str) -> (r: String)
    ensures
        r@ == safe_name(name@),
{
    let v = text::chars_of(name);
    let bad = text::chars_of(BAD_CHARS);
    let soft = text::chars_of(SOFT_BAD_CHARS);
    let mut out: Vec<char> = Vec::new();
    for i in 0..v.len()
        invariant
            v@ == name@,
            bad@ == BAD_CHARS@,
            soft@ == SOFT_BAD_CHARS@,
            out@ == squeezed(cleaned(name@).take(i as int)),
    {
        let c = v[i];
        let shown = if text::has_char(&bad, c) || text::has_char(&soft, c) || (c as u32) < 0x20 {
            '_'
        } else {
            c
        };
        assert(cleaned(name@).take(i + 1).drop_last() =~= cleaned(name@).take(i as int));
        assert(cleaned(name@).take(i + 1).last() == shown);
        let n: usize = out.len();
        if !(shown == '_' && n > 0 && out[n - 1] == '_') {
            out.push(shown);
        }
    }
    assert(cleaned(name@).take(name@.len() as int) =~= cleaned(name@));
    let whole = text::string_of(&out);
    let mut result = text::trimmed_end_of(&whole, " ._");
    if text::chars_of(&result).len() > 80 {
        let cut = text::first_chars(&result, 80);
        result = text::trimmed_end_of(&cut, " _");
    }
    if result.as_str().is_empty() {
        "_unnamed".to_owned()
    } else {
        result
    }
}

// Extensions.

/// The extension of a kind written in lower case: a report has its own.
pub open spec fn extension(lower: Seq<char>) -> Seq<char> {
    if text::has(lower, "отчёт"@) || text::has(lower, "отчет"@) || text::has(lower, "report"@) {
        ".erf"@
    } else {
        ".epf"@
    }
}

/// The extension of a kind written in lower case.
pub fn ext_by_lower_kind(lower: &str) -> (r: &'static str)
    ensures
        r@ == extension(lower@),
{
    if text::contains(lower, "отчёт") || text::contains(lower, "отчет") || text::contains(
        lower,
        "report",
    ) {
        ".erf"
    } else {
        ".epf"
    }
}

/// The file extension of a kind of processor, in any case of letters.
pub fn ext_by_kind(kind: &str) -> (r: &'static str)
    ensures
        r@ == extension(text::lower(kind@)),
{
    let lower = text::to_lowercase(kind);
    ext_by_lower_kind(&lower)
}

// Stored values.

/// `needle` stands in `data` at position `i`.
pub open spec fn bytes_at(data: Seq<u8>, needle: Seq<u8>, i: int) -> bool {
    0 <= i && i + needle.len() <= data.len() && data.subrange(i, i + needle.len()) == needle
}

/// The first position at or after `i` at which `needle` stands in `data`.
pub open spec fn find_bytes_from(data: Seq<u8>, needle: Seq<u8>, i: int) -> Option<int>
    decreases data.len() + 1 - i,
{
    if i < 0 || i + needle.len() > data.len() {
        None
    } else if bytes_at(data, needle, i) {
        Some(i)
    } else {
        find_bytes_from(data, needle, i + 1)
    }
}

/// The mark with which a container of the platform begins.
pub open spec fn container_mark() -> Seq<u8> {
    seq![0xFF, 0xFF, 0xFF, 0x7F]
}

/// What follows from the container mark on.
pub open spec fn from_mark(data: Seq<u8>) -> Option<Seq<u8>> {
    match find_bytes_from(data, container_mark(), 0) {
        Some(i) => Some(data.skip(i)),
        None => None,
    }
}

/// The first position at which `needle` stands in `haystack`; nothing for an
/// empty needle.
pub fn find_subseq(haystack: &[u8], needle: &[u8]) -> (r: Option<usize>)
    ensures
        needle@.len() == 0 ==> r is None,
        needle@.len() > 0 ==> match find_bytes_from(haystack@, needle@, 0) {
            Some(i) => r == Some(i as usize) && 0 <= i <= haystack@.len() - needle@.len(),
            None => r is None,
        },
        r matches Some(k) ==> find_bytes_from(haystack@, needle@, 0) == Some(k as int),
{
    if needle.len() == 0 || haystack.len() < needle.len() {
        return None;
    }
    let n: usize = haystack.len();
    let last: usize = n - needle.len();
    let mut i: usize = 0;
    while i <= last
        invariant
            needle@.len() > 0,
            n == haystack@.len(),
            last == haystack@.len() - needle@.len(),
            last < haystack@.len(),
            i <= last + 1,
            find_bytes_from(haystack@, needle@, 0) == find_bytes_from(
                haystack@,
                needle@,
                i as int,
            ),
        decreases last + 1 - i,
    {
        let w = &haystack[i..i + needle.len()];
        if same_bytes(w, needle) {
            return Some(i);
        }
        i = i + 1;
    }
    None
}

/// Whether two slices of bytes are equal.
fn same_bytes(a: &[u8], b: &[u8]) -> (r: bool)
    ensures
        r == (a@ == b@),
{
    if a.len() != b.len() {
        return false;
    }
    for i in 0..a.len()
        invariant
            a@.len() == b@.len(),
            forall|j: int| 0 <= j < i ==> a@[j] == b@[j],
    {
        if a[i] != b[i] {
            return false;
        }
    }
    assert(a@ =~= b@);
    true
}

/// The bytes in hexadecimal notation with blanks between them.
pub open spec fn hex_list(bytes: Seq<u8>) -> Seq<char> {
    text::join(bytes.map_values(|b: u8| text::hex_byte(b, 'A')), " "@)
}

/// The bytes as characters, with a dot for what is not printable.
pub open spec fn printable(bytes: Seq<u8>) -> Seq<char> {
    bytes.map_values(
        |b: u8|
            if 0x20 <= b && b < 0x7F {
                b as char
            } else {
                '.'
            },
    )
}

/// The first `n` bytes, or all of them.
pub open spec fn head_bytes(bytes: Seq<u8>, n: int) -> Seq<u8> {
    if bytes.len() <= n {
        bytes
    } else {
        bytes.take(n)
    }
}

/// The error about a stored value with an unknown header.
pub open spec fn unknown_header(vs: Seq<u8>) -> Seq<char> {
    let head = head_bytes(vs, 32);
    "неизвестный заголовок ValueStorage: 0x"@ + text::hex_byte(vs[0], 'A') + " 0x"@
        + text::hex_byte(vs[1], 'A') + " (размер="@ + text::dec(vs.len())
        + " байт)\nпервые 32 байта hex : "@ + hex_list(head) + "\nпервые 32 байта ASCII: "@
        + printable(head)
}

/// The error about a stored value that could not be unpacked.
pub open spec fn storage_error(message: Seq<char>) -> Result<Seq<u8>, ErrorView> {
    Err(ErrorView::ValueStorage(message))
}

/// What a stored value unpacks to, where `data` is what its compressed part
/// inflates to: the container in it, or the error. A processor that is
/// registered without a file has an error of its own.
pub open spec fn unpacked(vs: Seq<u8>, data: Result<Seq<u8>, Seq<char>>) -> Result<
    Seq<u8>,
    ErrorView,
> {
    if vs.len() < 2 {
        storage_error("слишком короткий блок: "@ + text::dec(vs.len()) + " байт"@)
    } else if is_empty_storage(vs) {
        Err(ErrorView::Empty)
    } else if vs[0] == 0x02 && vs[1] == 0x01 {
        if vs.len() <= 18 {
            storage_error(
                "сжатый ValueStorage короче заголовка ("@ + text::dec(vs.len()) + " ≤ 18)"@,
            )
        } else {
            match data {
                Err(e) => storage_error("DEFLATE упала: "@ + e),
                Ok(d) => match from_mark(d) {
                    Some(binary) => Ok(binary),
                    None => storage_error(
                        "сжатый ValueStorage: маркер 0xFFFFFF7F (v8-контейнер) не найден в распакованных данных (размер="@
                            + text::dec(d.len()) + " байт)"@,
                    ),
                },
            }
        }
    } else if vs[0] == 0x01 && vs[1] == 0x01 {
        match from_mark(vs.skip(2)) {
            Some(binary) => Ok(binary),
            None => storage_error("несжатый ValueStorage: маркер 0xFFFFFF7F не найден"@),
        }
    } else {
        storage_error(unknown_header(vs))
    }
}

/// The value is the mark of a processor registered without a file: it begins
/// with `STORHDR`.
pub open spec fn is_empty_storage(vs: Seq<u8>) -> bool {
    vs.len() >= 7 && vs.take(7) == seq![0x53u8, 0x54, 0x4F, 0x52, 0x48, 0x44, 0x52]
}

/// The result of unpacking, by its views.
pub open spec fn unpacked_view(r: Result<Vec<u8>, ExportError>) -> Result<Seq<u8>, ErrorView> {
    match r {
        Ok(b) => Ok(b@),
        Err(e) => Err(e@),
    }
}

/// The bytes in hexadecimal notation with blanks between them.
fn hex_list_of(bytes: &[u8]) -> (r: String)
    ensures
        r@ == hex_list(bytes@),
{
    let mut parts: Vec<String> = Vec::new();
    let ghost all = bytes@.map_values(|b: u8| text::hex_byte(b, 'A'));
    for i in 0..bytes.len()
        invariant
            all == bytes@.map_values(|b: u8| text::hex_byte(b, 'A')),
            text::views(parts@) == all.take(i as int),
    {
        let mut one = String::new();
        text::push_hex(&mut one, bytes[i], true);
        assert(one@ =~= all[i as int]);
        let ghost before = parts@;
        parts.push(one);
        assert(text::views(parts@) =~= text::views(before).push(one@));
        assert(all.take(i + 1) =~= all.take(i as int).push(all[i as int]));
    }
    assert(all.take(all.len() as int) =~= all);
    text::joined(&parts, " ")
}

/// The bytes as characters, with a dot for what is not printable.
fn printable_of(bytes: &[u8]) -> (r: String)
    ensures
        r@ == printable(bytes@),
{
    let mut out = String::new();
    for i in 0..bytes.len()
        invariant
            out@ == printable(bytes@).take(i as int),
    {
        let b = bytes[i];
        out.push(
            if 0x20 <= b && b < 0x7F {
                b as char
            } else {
                '.'
            },
        );
        assert(printable(bytes@).take(i + 1) =~= printable(bytes@).take(i as int).push(
            printable(bytes@)[i as int],
        ));
    }
    assert(printable(bytes@).take(bytes@.len() as int) =~= printable(bytes@));
    out
}

/// The error about a stored value with an unknown header.
fn unknown_header_message(vs: &[u8]) -> (r: String)
    requires
        vs@.len() >= 2,
    ensures
        r@ == unknown_header(vs@),
{
    let n: usize = if vs.len() < 32 {
        vs.len()
    } else {
        32
    };
    let head = &vs[0..n];
    assert(head@ =~= head_bytes(vs@, 32));
    let mut m = "неизвестный заголовок ValueStorage: 0x".to_owned();
    text::push_hex(&mut m, vs[0], true);
    m.append(" 0x");
    text::push_hex(&mut m, vs[1], true);
    m.append(" (размер=");
    let size = text::dec_of(vs.len() as u64);
    m.append(&size);
    m.append(" байт)\nпервые 32 байта hex : ");
    let hex = hex_list_of(head);
    m.append(&hex);
    m.append("\nпервые 32 байта ASCII: ");
    let ascii = printable_of(head);
    m.append(&ascii);
    m
}

/// What follows from the container mark on.
fn cut_to_mark(data: &[u8]) -> (r: Option<Vec<u8>>)
    ensures
        match (r, from_mark(data@)) {
            (Some(v), Some(s)) => v@ == s,
            (None, None) => true,
            _ => false,
        },
{
    let mark: Vec<u8> = vec![0xFFu8, 0xFF, 0xFF, 0x7F];
    assert(mark@ =~= container_mark());
    match find_subseq(data, &mark) {
        Some(i) => {
            let tail = &data[i..data.len()];
            assert(tail@ =~= data@.skip(i as int));
            Some(vstd::slice::slice_to_vec(tail))
        },
        None => None,
    }
}

/// Whether the value begins with `STORHDR`.
fn begins_storhdr(vs: &[u8]) -> (r: bool)
    ensures
        r == is_empty_storage(vs@),
{
    if vs.len() < 7 {
        return false;
    }
    let mark: Vec<u8> = vec![0x53u8, 0x54, 0x4F, 0x52, 0x48, 0x44, 0x52];
    assert(mark@ =~= seq![0x53u8, 0x54, 0x4F, 0x52, 0x48, 0x44, 0x52]);
    let head = &vs[0..7];
    assert(head@ =~= vs@.take(7));
    same_bytes(head, &mark)
}

/// Unpacks a stored value whose compressed part inflated to `data`.
pub fn unpack_storage(vs: &[u8], data: Result<Vec<u8>, String>) -> (r: Result<
    Vec<u8>,
    ExportError,
>)
    ensures
        unpacked_view(r) == unpacked(vs@, codec::inflated_view(data)),
{
    if vs.len() < 2 {
        let mut m = "слишком короткий блок: ".to_owned();
        let size = text::dec_of(vs.len() as u64);
        m.append(&size);
        m.append(" байт");
        return Err(ExportError::ValueStorage(m));
    }
    if begins_storhdr(vs) {
        return Err(ExportError::Empty);
    }
    if vs[0] == 0x02 && vs[1] == 0x01 {
        if vs.len() <= 18 {
            let mut m = "сжатый ValueStorage короче заголовка (".to_owned();
            let size = text::dec_of(vs.len() as u64);
            m.append(&size);
            m.append(" ≤ 18)");
            return Err(ExportError::ValueStorage(m));
        }
        match data {
            Err(e) => {
                let mut m = "DEFLATE упала: ".to_owned();
                m.append(&e);
                Err(ExportError::ValueStorage(m))
            },
            Ok(d) => match cut_to_mark(&d) {
                Some(binary) => Ok(binary),
                None => {
                    let mut m =
                        "сжатый ValueStorage: маркер 0xFFFFFF7F (v8-контейнер) не найден в распакованных данных (размер=".to_owned();
                    let size = text::dec_of(d.len() as u64);
                    m.append(&size);
                    m.append(" байт)");
                    Err(ExportError::ValueStorage(m))
                },
            },
        }
    } else if vs[0] == 0x01 && vs[1] == 0x01 {
        let tail = &vs[2..vs.len()];
        assert(tail@ =~= vs@.skip(2));
        match cut_to_mark(tail) {
            Some(binary) => Ok(binary),
            None => Err(
                ExportError::ValueStorage(
                    "несжатый ValueStorage: маркер 0xFFFFFF7F не найден".to_owned(),
                ),
            ),
        }
    } else {
        Err(ExportError::ValueStorage(unknown_header_message(vs)))
    }
}

/// Unpacks a stored value: the container of the processor in it, or an error
/// that says why there is none.
pub fn value_storage_to_binary(vs: &[u8]) -> (r: Result<Vec<u8>, ExportError>)
    ensures
        unpacked_view(r) == unpacked(vs@, codec::inflate(vs@.skip(18))),
{
    let data = if vs.len() > 18 && vs[0] == 0x02 && vs[1] == 0x01 {
        let tail = &vs[18..vs.len()];
        assert(tail@ =~= vs@.skip(18));
        codec::inflate_raw(tail)
    } else {
        Ok(Vec::new())
    };
    unpack_storage(vs, data)
}

/// The MD5 digest of bytes in capital hexadecimal letters.
pub fn md5_upper_hex(bytes: &[u8]) -> (r: String)
    ensures
        r@ == text::hex(codec::md5_digest(bytes@), 'A'),
{
    let digest = codec::md5(bytes);
    text::hex_of(&digest, true)
}

/// What is unpacked begins with the container mark.
pub proof fn unpacked_begins_with_mark(vs: Seq<u8>, data: Result<Seq<u8>, Seq<char>>)
    requires
        unpacked(vs, data) is Ok,
    ensures
        unpacked(vs, data)->Ok_0.len() >= 4,
        unpacked(vs, data)->Ok_0.take(4) == container_mark(),
{
    let source = if vs[0] == 0x02 {
        data->Ok_0
    } else {
        vs.skip(2)
    };
    lemma_find_bytes(source, container_mark(), 0);
    let i = find_bytes_from(source, container_mark(), 0)->0;
    assert(source.skip(i).take(4) =~= source.subrange(i, i + 4));
}

proof fn lemma_find_bytes(data: Seq<u8>, needle: Seq<u8>, i: int)
    requires
        0 <= i,
    ensures
        match find_bytes_from(data, needle, i) {
            Some(k) => i <= k && bytes_at(data, needle, k) && forall|j: int|
                i <= j < k ==> !bytes_at(data, needle, j),
            None => forall|j: int| i <= j ==> !bytes_at(data, needle, j),
        },
    decreases data.len() + 1 - i,
{
    if i + needle.len() <= data.len() && !bytes_at(data, needle, i) {
        lemma_find_bytes(data, needle, i + 1);
    }
}

// Laws of file names.

/// No two underscores follow each other.
pub open spec fn single_underscores(s: Seq<char>) -> bool {
    forall|i: int| 0 <= i < s.len() - 1 ==> !(#[trigger] s[i] == '_' && s[i + 1] == '_')
}

proof fn lemma_squeezed(s: Seq<char>)
    ensures
        squeezed(s).len() <= s.len(),
        single_underscores(squeezed(s)),
        forall|c: char| #[trigger] squeezed(s).contains(c) ==> s.contains(c),
        single_underscores(s) ==> squeezed(s) == s,
    decreases s.len(),
{
    if s.len() > 0 {
        let s0 = s.drop_last();
        let t = squeezed(s0);
        let r = squeezed(s);
        lemma_squeezed(s0);
        assert forall|i: int| 0 <= i < r.len() - 1 implies !(#[trigger] r[i] == '_' && r[i + 1]
            == '_') by {
            if i + 1 < t.len() {
                assert(!(t[i] == '_' && t[i + 1] == '_'));
            }
        }
        assert forall|c: char| #[trigger] r.contains(c) implies s.contains(c) by {
            let i = r.index_of(c);
            if i < t.len() {
                assert(t.contains(c)) by {
                    assert(t[i] == c);
                }
                assert(s0.contains(c));
                let j = s0.index_of(c);
                assert(s[j] == c);
            } else {
                assert(s[s.len() - 1] == c);
            }
        }
        if single_underscores(s) {
            assert forall|i: int| 0 <= i < s0.len() - 1 implies !(#[trigger] s0[i] == '_' && s0[i
                + 1] == '_') by {
                assert(!(s[i] == '_' && s[i + 1] == '_'));
            }
            if s0.len() > 0 {
                assert(!(s[s0.len() - 1] == '_' && s[s0.len() - 1 + 1] == '_'));
            }
            assert(r =~= s);
        }
    }
}

proof fn lemma_trim_end_of(s: Seq<char>, set: Seq<char>)
    ensures
        text::trim_end_of(s, set).len() <= s.len(),
        text::trim_end_of(s, set) =~= s.take(text::trim_end_of(s, set).len() as int),
        text::trim_end_of(s, set).len() > 0 ==> !set.contains(text::trim_end_of(s, set).last()),
    decreases s.len(),
{
    if s.len() > 0 && set.contains(s.last()) {
        lemma_trim_end_of(s.drop_last(), set);
    }
}

/// A character that is safe in a file name.
proof fn lemma_underscore_is_safe()
    ensures
        !unsafe_char('_'),
        !unsafe_char('u'),
        !unsafe_char('n'),
        !unsafe_char('a'),
        !unsafe_char('m'),
        !unsafe_char('e'),
        !unsafe_char('d'),
        unsafe_char('.'),
        " ._"@ =~= seq![' ', '.', '_'],
        " _"@ =~= seq![' ', '_'],
        "_unnamed"@ =~= seq!['_', 'u', 'n', 'n', 'a', 'm', 'e', 'd'],
{
    reveal_strlit("<>:\"/\\|?*");
    reveal_strlit(",;()[]{}!@#$%^&+=`~'.");
    reveal_strlit(" ._");
    reveal_strlit(" _");
    reveal_strlit("_unnamed");
    assert(SOFT_BAD_CHARS@[20] == '.');
}

/// The form of every file name: not empty, at most 80 characters, none of them
/// unsafe, no two underscores in a row, no blank or underscore at the end.
spec fn is_safe(s: Seq<char>) -> bool {
    &&& 0 < s.len() <= 80
    &&& forall|i: int| 0 <= i < s.len() ==> !unsafe_char(#[trigger] s[i])
    &&& single_underscores(s)
    &&& s.last() != ' '
    &&& s.last() != '_'
}

proof fn lemma_safe_name(name: Seq<char>)
    ensures
        is_safe(safe_name(name)),
{
    lemma_underscore_is_safe();
    let c = cleaned(name);
    let q = squeezed(c);
    lemma_squeezed(c);
    assert forall|i: int| 0 <= i < q.len() implies !unsafe_char(#[trigger] q[i]) by {
        assert(q.contains(q[i]));
        let j = c.index_of(q[i]);
        assert(c[j] == q[i]);
    }
    let all = text::trim_end_of(q, " ._"@);
    lemma_trim_end_of(q, " ._"@);
    assert(forall|i: int| 0 <= i < all.len() ==> all[i] == q[i]);
    assert(single_underscores(all)) by {
        assert forall|i: int| 0 <= i < all.len() - 1 implies !(#[trigger] all[i] == '_' && all[i
            + 1] == '_') by {
            assert(!(q[i] == '_' && q[i + 1] == '_'));
        }
    }
    if all.len() > 0 {
        assert(" ._"@[0] == ' ' && " ._"@[2] == '_');
        assert(all.last() != ' ' && all.last() != '_');
    }
    if all.len() > 80 {
        let cut = all.take(80);
        let short = text::trim_end_of(cut, " _"@);
        lemma_trim_end_of(cut, " _"@);
        assert(forall|i: int| 0 <= i < short.len() ==> short[i] == all[i]);
        assert(single_underscores(short)) by {
            assert forall|i: int| 0 <= i < short.len() - 1 implies !(#[trigger] short[i] == '_'
                && short[i + 1] == '_') by {
                assert(!(all[i] == '_' && all[i + 1] == '_'));
            }
        }
        if short.len() > 0 {
            assert(" _"@[0] == ' ' && " _"@[1] == '_');
            assert(short.last() != ' ' && short.last() != '_');
        }
    }
}

/// A file name has 1 to 80 characters, and the file system and the command
/// line take every one of them. No two underscores in it follow each other, and
/// it ends with no blank, dot or underscore.
pub proof fn file_names_are_safe(name: Seq<char>)
    ensures
        0 < safe_name(name).len() <= 80,
        forall|i: int| 0 <= i < safe_name(name).len() ==> !unsafe_char(#[trigger] safe_name(name)[i]),
        single_underscores(safe_name(name)),
        safe_name(name).last() != ' ',
        safe_name(name).last() != '.',
        safe_name(name).last() != '_',
{
    lemma_safe_name(name);
    lemma_underscore_is_safe();
    let s = safe_name(name);
    assert(!unsafe_char(s[s.len() - 1]));
}

/// A file name stands for itself.
pub proof fn file_names_are_stable(name: Seq<char>)
    ensures
        safe_name(safe_name(name)) == safe_name(name),
{
    lemma_safe_name(name);
    lemma_underscore_is_safe();
    let s = safe_name(name);
    assert(cleaned(s) =~= s);
    lemma_squeezed(s);
    assert(!unsafe_char(s[s.len() - 1]));
    assert(!" ._"@.contains(s.last()));
}

// Queries.

/// The query for the processors of a catalogue, without their contents.
pub open spec fn rows_sql(m: StorageMapping) -> Seq<char> {
    let kind = if m.field_kind@.len() == 0 {
        ""@
    } else {
        ", CONVERT(CHAR(32), "@ + m.field_kind@ + ", 2) AS kind"@
    };
    "SELECT CONVERT(CHAR(32), _IDRRef, 2) AS uuid, RTRIM(_Description) AS name, "@
        + sql_signals::hash_expression(m.field_hash@, m.hash_is_binary) + " AS hash"@ + kind
        + " FROM dbo."@ + m.table@ + " WITH (NOLOCK) WHERE _Marked = 0x00 AND _Folder = 0x01"@
}

/// The query for the processors of a catalogue, without their contents.
pub fn rows_query(m: &StorageMapping) -> (r: String)
    ensures
        r@ == rows_sql(*m),
{
    let mut s =
        "SELECT CONVERT(CHAR(32), _IDRRef, 2) AS uuid, RTRIM(_Description) AS name, ".to_owned();
    let hash = sql_signals::hash_select(&m.field_hash, m.hash_is_binary);
    s.append(&hash);
    s.append(" AS hash");
    let kind = if m.field_kind.as_str().is_empty() {
        "".to_owned()
    } else {
        let mut k = ", CONVERT(CHAR(32), ".to_owned();
        k.append(&m.field_kind);
        k.append(", 2) AS kind");
        k
    };
    s.append(&kind);
    s.append(" FROM dbo.");
    s.append(&m.table);
    s.append(" WITH (NOLOCK) WHERE _Marked = 0x00 AND _Folder = 0x01");
    s
}

/// The query for the kinds of processors, or nothing where their table is not
/// known.
pub fn kinds_query(enum_table: &str) -> (r: Option<String>)
    ensures
        match r {
            Some(s) => text::trim(enum_table@).len() > 0 && s@
                == "SELECT CONVERT(CHAR(32), _IDRRef, 2) AS uuid, CAST(_EnumOrder AS INT) AS ord FROM dbo."@
                + enum_table@ + " WITH (NOLOCK)"@,
            None => text::trim(enum_table@).len() == 0,
        },
{
    if text::trimmed(enum_table).as_str().is_empty() {
        return None;
    }
    let mut s =
        "SELECT CONVERT(CHAR(32), _IDRRef, 2) AS uuid, CAST(_EnumOrder AS INT) AS ord FROM dbo.".to_owned();
    s.append(enum_table);
    s.append(" WITH (NOLOCK)");
    Some(s)
}

/// The references of a query, as binary literals.
pub open spec fn literals(uuids: Seq<Seq<char>>) -> Seq<Seq<char>> {
    uuids.map_values(|u: Seq<char>| "0x"@ + u)
}

/// The query for the contents of some processors.
pub open spec fn blobs_sql(m: StorageMapping, uuids: Seq<Seq<char>>) -> Seq<char> {
    "SELECT CONVERT(CHAR(32), _IDRRef, 2) AS uuid, "@ + m.field_storage@ + " AS vs FROM dbo."@
        + m.table@ + " WITH (NOLOCK) WHERE _IDRRef IN ("@ + text::join(literals(uuids), ","@)
        + ")"@
}

/// The part of a list that the query with number `k` asks for: a thousand
/// items, or those that are left.
pub open spec fn batch(uuids: Seq<Seq<char>>, k: int) -> Seq<Seq<char>> {
    let end = if 1000 * (k + 1) < uuids.len() {
        1000 * (k + 1)
    } else {
        uuids.len() as int
    };
    uuids.subrange(1000 * k, end)
}

/// The query for the contents of the processors from `from` up to `to`.
fn blobs_query(m: &StorageMapping, uuids: &Vec<String>, from: usize, to: usize) -> (r: String)
    requires
        from <= to <= uuids@.len(),
    ensures
        r@ == blobs_sql(*m, text::views(uuids@).subrange(from as int, to as int)),
{
    let ghost part = text::views(uuids@).subrange(from as int, to as int);
    let mut values: Vec<String> = Vec::new();
    for i in from..to
        invariant
            from <= to <= uuids@.len(),
            part == text::views(uuids@).subrange(from as int, to as int),
            text::views(values@) == literals(part).take(i - from),
    {
        let mut one = "0x".to_owned();
        one.append(&uuids[i]);
        let ghost before = values@;
        values.push(one);
        assert(text::views(values@) =~= text::views(before).push(one@));
        assert(literals(part).take(i + 1 - from) =~= literals(part).take(i - from).push(
            literals(part)[i - from],
        ));
    }
    assert(literals(part).take(to - from) =~= literals(part));
    let list = text::joined(&values, ",");
    let mut s = "SELECT CONVERT(CHAR(32), _IDRRef, 2) AS uuid, ".to_owned();
    s.append(&m.field_storage);
    s.append(" AS vs FROM dbo.");
    s.append(&m.table);
    s.append(" WITH (NOLOCK) WHERE _IDRRef IN (");
    s.append(&list);
    s.append(")");
    s
}

/// The queries for the contents of the given processors, a thousand of them at
/// a time.
pub fn blob_queries(m: &StorageMapping, uuids: &Vec<String>) -> (r: Vec<String>)
    ensures
        r@.len() == (uuids@.len() + 999) / 1000,
        forall|k: int|
            0 <= k < r@.len() ==> (#[trigger] r@[k])@ == blobs_sql(
                *m,
                batch(text::views(uuids@), k),
            ),
{
    let n: usize = uuids.len();
    let mut out: Vec<String> = Vec::new();
    let mut i: usize = 0;
    while i < n
        invariant
            n == uuids@.len(),
            i <= n,
            i == n || i == 1000 * out@.len(),
            i == n ==> out@.len() == (n + 999) / 1000,
            forall|k: int|
                0 <= k < out@.len() ==> (#[trigger] out@[k])@ == blobs_sql(
                    *m,
                    batch(text::views(uuids@), k),
                ),
        decreases n - i,
    {
        let end: usize = if n - i > 1000 {
            i + 1000
        } else {
            n
        };
        let q = blobs_query(m, uuids, i, end);
        out.push(q);
        i = end;
    }
    out
}

// Kinds.

/// The name of the kind with the given place in its enumeration.
pub open spec fn kind_name(order: int) -> Option<Seq<char>> {
    if order == 0 {
        Some("Дополнительная обработка"@)
    } else if order == 1 {
        Some("Дополнительный отчет"@)
    } else if order == 2 {
        Some("Заполнение объекта"@)
    } else if order == 3 {
        Some("Отчет"@)
    } else if order == 4 {
        Some("Печатная форма"@)
    } else if order == 5 {
        Some("Создание связанных объектов"@)
    } else if order == 6 {
        Some("Шаблон сообщения"@)
    } else {
        None
    }
}

/// The name of the kind with the given place in its enumeration.
pub fn order_to_kind_name(order: i32) -> (r: Option<&'static str>)
    ensures
        match (r, kind_name(order as int)) {
            (Some(s), Some(n)) => s@ == n,
            (None, None) => true,
            _ => false,
        },
{
    match order {
        0 => Some("Дополнительная обработка"),
        1 => Some("Дополнительный отчет"),
        2 => Some("Заполнение объекта"),
        3 => Some("Отчет"),
        4 => Some("Печатная форма"),
        5 => Some("Создание связанных объектов"),
        6 => Some("Шаблон сообщения"),
        _ => None,
    }
}

/// The values of a map of strings, by their views.
pub open spec fn string_map(m: Map<Seq<char>, String>) -> Map<Seq<char>, Seq<char>> {
    m.map_values(|s: String| s@)
}

/// A map of kinds with one more row of the enumeration: a reference in capital
/// letters and its place. A place without a name adds nothing.
pub open spec fn with_kind(kinds: Map<Seq<char>, Seq<char>>, upper: Seq<char>, order: int) -> Map<
    Seq<char>,
    Seq<char>,
> {
    match kind_name(order) {
        Some(name) => kinds.insert(upper, name),
        None => kinds,
    }
}

/// Adds a row of the enumeration of kinds.
pub fn add_kind(kinds: &mut StrMap<String>, upper_uuid: String, order: i32)
    ensures
        string_map(final(kinds)@) == with_kind(string_map(old(kinds)@), upper_uuid@, order as int),
{
    if let Some(name) = order_to_kind_name(order) {
        let ghost before = kinds@;
        let value = name.to_owned();
        kinds.insert(upper_uuid, value);
        assert(string_map(before.insert(upper_uuid@, value)) =~= string_map(before).insert(
            upper_uuid@,
            value@,
        ));
    }
}

/// A row of the enumeration of kinds, as the query returns it.
pub type KindRow = (Option<String>, Option<i32>);

/// The map of kinds that the rows of the enumeration give; rows without a
/// reference or a place count for nothing.
pub open spec fn kinds_of(rows: Seq<KindRow>) -> Map<Seq<char>, Seq<char>>
    decreases rows.len(),
{
    if rows.len() == 0 {
        Map::empty()
    } else {
        let before = kinds_of(rows.drop_last());
        match rows.last() {
            (Some(uuid), Some(order)) => with_kind(before, text::upper(uuid@), order as int),
            _ => before,
        }
    }
}

/// The map of kinds that the rows of the enumeration give.
pub fn build_kind_map(rows: &Vec<KindRow>) -> (r: StrMap<String>)
    ensures
        string_map(r@) == kinds_of(rows@),
{
    let mut kinds: StrMap<String> = StrMap::new();
    assert(string_map(kinds@) =~= Map::empty());
    for i in 0..rows.len()
        invariant
            string_map(kinds@) == kinds_of(rows@.take(i as int)),
    {
        assert(rows@.take(i + 1).drop_last() =~= rows@.take(i as int));
        match &rows[i] {
            (Some(uuid), Some(order)) => {
                let upper = text::to_uppercase(uuid);
                add_kind(&mut kinds, upper, *order);
            },
            _ => {},
        }
    }
    assert(rows@.take(rows@.len() as int) =~= rows@);
    kinds
}

// Comparison with what was exported before.

/// A processor as the catalogue has it now.
#[derive(Debug, Clone)]
pub struct DbRow {
    pub uuid: String,
    pub name: String,
    pub kind: String,
    pub hash: String,
}

/// The message about a column that a row has no text in.
pub open spec fn no_text_error(column: Seq<char>) -> Seq<char> {
    "поле "@ + column + " пустое/не строка"@
}

/// The text of a column that every row has.
fn needed_text(value: Option<String>, column: &str) -> (r: Result<String, ExportError>)
    ensures
        match value {
            Some(s) => r == Ok::<String, ExportError>(s),
            None => r matches Err(ExportError::Sql(m)) && m@ == no_text_error(column@),
        },
{
    match value {
        Some(s) => Ok(s),
        None => {
            let mut m = "поле ".to_owned();
            m.append(column);
            m.append(" пустое/не строка");
            Err(ExportError::Sql(m))
        },
    }
}

/// The text of a column, or nothing where a row has none.
pub open spec fn text_or_nothing(value: Option<String>) -> Seq<char> {
    match value {
        Some(s) => s@,
        None => Seq::empty(),
    }
}

/// The text of a column, or nothing where a row has none.
fn given_text(value: Option<String>) -> (r: String)
    ensures
        r@ == text_or_nothing(value),
{
    match value {
        Some(s) => s,
        None => {
            let s = String::new();
            assert(s@ =~= Seq::<char>::empty());
            s
        },
    }
}

/// A processor from the columns of its row. Every row has a reference; the
/// kind is read only where the catalogue has a column for it.
pub fn read_row(
    m: &StorageMapping,
    uuid: Option<String>,
    name: Option<String>,
    hash: Option<String>,
    kind: Option<String>,
) -> (r: Result<DbRow, ExportError>)
    ensures
        match uuid {
            Some(u) => r matches Ok(row) && row.uuid == u && row.name@ == text_or_nothing(name)
                && row.hash@ == text_or_nothing(hash) && row.kind@ == if m.field_kind@.len() == 0 {
                Seq::empty()
            } else {
                text_or_nothing(kind)
            },
            None => r matches Err(ExportError::Sql(e)) && e@ == no_text_error("uuid"@),
        },
{
    let uuid = match needed_text(uuid, "uuid") {
        Ok(u) => u,
        Err(e) => return Err(e),
    };
    let kind = if m.field_kind.as_str().is_empty() {
        given_text(None)
    } else {
        given_text(kind)
    };
    Ok(DbRow { uuid, name: given_text(name), hash: given_text(hash), kind })
}

/// The reference of a processor and what is stored of it, from the columns of
/// its row; every row has both.
pub fn read_blob(uuid: Option<String>, contents: Option<Vec<u8>>) -> (r: Result<
    (String, Vec<u8>),
    ExportError,
>)
    ensures
        match (uuid, contents) {
            (Some(u), Some(c)) => r == Ok::<(String, Vec<u8>), ExportError>((u, c)),
            (Some(_), None) => r matches Err(ExportError::Sql(e)) && e@ == "поле vs пустое"@,
            (None, _) => r matches Err(ExportError::Sql(e)) && e@ == no_text_error("uuid"@),
        },
{
    let uuid = match needed_text(uuid, "uuid") {
        Ok(u) => u,
        Err(e) => return Err(e),
    };
    match contents {
        Some(c) => Ok((uuid, c)),
        None => Err(ExportError::Sql("поле vs пустое".to_owned())),
    }
}

/// A processor that was exported.
#[derive(Debug, Clone)]
pub struct ManifestItem {
    pub name: String,
    pub kind: String,
    pub hash: String,
    pub path: String,
    pub size: u64,
    pub updated: String,
}

/// What was exported of a catalogue, and where the catalogue is stored.
#[derive(Debug)]
pub struct Manifest {
    pub source: Option<StorageMapping>,
    pub source_discovered_at: Option<String>,
    pub kind_uuid_to_name: StrMap<String>,
    /// The exported processors by their references.
    pub items: StrMap<ManifestItem>,
}

impl Default for Manifest {
    fn default() -> (r: Self)
        ensures
            r.source is None,
            r.source_discovered_at is None,
            r.kind_uuid_to_name@ == Map::<Seq<char>, String>::empty(),
            r.items@ == Map::<Seq<char>, ManifestItem>::empty(),
    {
        Manifest {
            source: None,
            source_discovered_at: None,
            kind_uuid_to_name: StrMap::new(),
            items: StrMap::new(),
        }
    }
}

/// What one export of processors did.
#[derive(Debug, Clone)]
pub struct ProcessingsResult {
    pub new: usize,
    pub changed: usize,
    pub unchanged: usize,
    pub deleted: usize,
    /// Names and error texts of what could not be exported.
    pub failed: Vec<(String, String)>,
    /// Names of what is registered without a file.
    pub skipped_empty: Vec<String>,
    /// File names, without extensions, of what was exported.
    pub fresh_names: Vec<String>,
}

impl Default for ProcessingsResult {
    fn default() -> (r: Self)
        ensures
            r.new == 0 && r.changed == 0 && r.unchanged == 0 && r.deleted == 0,
            r.failed@.len() == 0 && r.skipped_empty@.len() == 0 && r.fresh_names@.len() == 0,
    {
        ProcessingsResult {
            new: 0,
            changed: 0,
            unchanged: 0,
            deleted: 0,
            failed: Vec::new(),
            skipped_empty: Vec::new(),
            fresh_names: Vec::new(),
        }
    }
}

/// The processor was exported with the hash that it has now.
pub open spec fn is_unchanged(items: Map<Seq<char>, ManifestItem>, row: DbRow) -> bool {
    items.dom().contains(row.uuid@) && text::eq_ignore_case(items[row.uuid@].hash@, row.hash@)
}

/// The references of the processors that are new or have changed, in the order
/// of the rows.
pub open spec fn fetch_list(items: Map<Seq<char>, ManifestItem>, rows: Seq<DbRow>) -> Seq<Seq<char>>
    decreases rows.len(),
{
    if rows.len() == 0 {
        Seq::empty()
    } else if is_unchanged(items, rows.last()) {
        fetch_list(items, rows.drop_last())
    } else {
        fetch_list(items, rows.drop_last()).push(rows.last().uuid@)
    }
}

/// Some row has the reference.
pub open spec fn has_row(rows: Seq<DbRow>, uuid: Seq<char>) -> bool {
    exists|i: int| 0 <= i < rows.len() && (#[trigger] rows[i]).uuid@ == uuid
}

/// The references among `keys` that no row has, in their order.
pub open spec fn orphans(keys: Seq<Seq<char>>, rows: Seq<DbRow>) -> Seq<Seq<char>>
    decreases keys.len(),
{
    if keys.len() == 0 {
        Seq::empty()
    } else if has_row(rows, keys.last()) {
        orphans(keys.drop_last(), rows)
    } else {
        orphans(keys.drop_last(), rows).push(keys.last())
    }
}

/// The place of the last row with a reference, before the place `n`.
pub open spec fn last_row(rows: Seq<DbRow>, uuid: Seq<char>, n: int) -> int
    decreases n,
{
    if n <= 0 {
        -1
    } else if rows[n - 1].uuid@ == uuid {
        n - 1
    } else {
        last_row(rows, uuid, n - 1)
    }
}

/// Whether some row has the reference.
fn any_row(rows: &Vec<DbRow>, uuid: &str) -> (r: bool)
    ensures
        r == has_row(rows@, uuid@),
{
    for i in 0..rows.len()
        invariant
            forall|j: int| 0 <= j < i ==> (#[trigger] rows@[j]).uuid@ != uuid@,
    {
        if text::same(&rows[i].uuid, uuid) {
            assert(rows@[i as int].uuid@ == uuid@);
            return true;
        }
    }
    false
}

proof fn lemma_fetch_list(items: Map<Seq<char>, ManifestItem>, rows: Seq<DbRow>)
    ensures
        fetch_list(items, rows).len() <= rows.len(),
        forall|k: int|
            0 <= k < fetch_list(items, rows).len() ==> has_row(
                rows,
                #[trigger] fetch_list(items, rows)[k],
            ),
    decreases rows.len(),
{
    if rows.len() > 0 {
        let r0 = rows.drop_last();
        lemma_fetch_list(items, r0);
        let all = fetch_list(items, rows);
        assert forall|k: int| 0 <= k < all.len() implies has_row(rows, #[trigger] all[k]) by {
            if k < fetch_list(items, r0).len() {
                assert(has_row(r0, fetch_list(items, r0)[k]));
                let i = choose|i: int|
                    0 <= i < r0.len() && (#[trigger] r0[i]).uuid@ == fetch_list(items, r0)[k];
                assert(rows[i].uuid@ == all[k]);
            } else {
                assert(rows[rows.len() - 1].uuid@ == all[k]);
            }
        }
    }
}

/// An export of processors on its way: what was found, what is to be fetched
/// and what came of it so far.
#[derive(Debug)]
pub struct ProcessingsRun {
    pub manifest: Manifest,
    pub rows: Vec<DbRow>,
    /// The references of what is new or has changed.
    pub to_fetch: Vec<String>,
    /// The references of what is no longer in the catalogue.
    pub deleted: Vec<String>,
    /// How many of `to_fetch` are done.
    pub done: usize,
    pub result: ProcessingsResult,
}

impl ProcessingsRun {
    /// Every row is unchanged or to be fetched, and every one that was fetched
    /// is counted once.
    pub open spec fn wf(&self) -> bool {
        &&& self.done <= self.to_fetch@.len()
        &&& self.result.unchanged + self.to_fetch@.len() == self.rows@.len()
        &&& self.result.new + self.result.changed + self.result.failed@.len()
            + self.result.skipped_empty@.len() == self.done
        &&& self.result.fresh_names@.len() == self.result.new + self.result.changed
        &&& forall|k: int|
            0 <= k < self.to_fetch@.len() ==> has_row(self.rows@, (#[trigger] self.to_fetch@[k])@)
    }

    /// The row that is to be dealt with.
    pub open spec fn current_row(&self) -> DbRow {
        self.rows@[last_row(
            self.rows@,
            self.to_fetch@[self.done as int]@,
            self.rows@.len() as int,
        )]
    }

    /// Compares the rows of a catalogue with what was exported before.
    pub fn start(manifest: Manifest, rows: Vec<DbRow>) -> (r: ProcessingsRun)
        ensures
            r.wf(),
            r.manifest == manifest,
            r.rows == rows,
            text::views(r.to_fetch@) == fetch_list(manifest.items@, rows@),
            text::views(r.deleted@) == orphans(manifest.items.keys(), rows@),
            r.done == 0,
            r.result.unchanged == rows@.len() - r.to_fetch@.len(),
            r.result.new == 0 && r.result.changed == 0 && r.result.deleted == 0,
            r.result.failed@.len() == 0 && r.result.skipped_empty@.len() == 0,
            r.result.fresh_names@.len() == 0,
    {
        let mut to_fetch: Vec<String> = Vec::new();
        for i in 0..rows.len()
            invariant
                text::views(to_fetch@) == fetch_list(manifest.items@, rows@.take(i as int)),
        {
            assert(rows@.take(i + 1).drop_last() =~= rows@.take(i as int));
            let row = &rows[i];
            let same = match manifest.items.get(&row.uuid) {
                Some(item) => text::same_ignore_case(&item.hash, &row.hash),
                None => false,
            };
            if !same {
                let ghost before = to_fetch@;
                to_fetch.push(row.uuid.clone());
                assert(text::views(to_fetch@) =~= text::views(before).push(row.uuid@));
            }
        }
        assert(rows@.take(rows@.len() as int) =~= rows@);
        let n: usize = manifest.items.len();
        let ghost keys = manifest.items.keys();
        let mut deleted: Vec<String> = Vec::new();
        for i in 0..n
            invariant
                n == keys.len(),
                keys == manifest.items.keys(),
                text::views(deleted@) == orphans(keys.take(i as int), rows@),
        {
            assert(keys.take(i + 1).drop_last() =~= keys.take(i as int));
            let key = manifest.items.key_at(i);
            if !any_row(&rows, key) {
                let ghost before = deleted@;
                deleted.push(key.clone());
                assert(text::views(deleted@) =~= text::views(before).push(key@));
            }
        }
        assert(keys.take(n as int) =~= keys);
        proof {
            lemma_fetch_list(manifest.items@, rows@);
            assert(to_fetch@.len() == text::views(to_fetch@).len());
            assert forall|k: int| 0 <= k < to_fetch@.len() implies has_row(
                rows@,
                (#[trigger] to_fetch@[k])@,
            ) by {
                assert(text::views(to_fetch@)[k] == to_fetch@[k]@);
            }
        }
        let mut result = ProcessingsResult::default();
        result.unchanged = rows.len() - to_fetch.len();
        ProcessingsRun { manifest, rows, to_fetch, deleted, done: 0, result }
    }

    /// The row that is to be dealt with; none where all are done.
    pub fn current(&self) -> (r: Option<&DbRow>)
        requires
            self.wf(),
        ensures
            match r {
                Some(row) => self.done < self.to_fetch@.len() && *row == self.current_row()
                    && row.uuid@ == self.to_fetch@[self.done as int]@,
                None => self.done == self.to_fetch@.len(),
            },
    {
        if self.done >= self.to_fetch.len() {
            return None;
        }
        let uuid = &self.to_fetch[self.done];
        let mut n: usize = self.rows.len();
        while n > 0
            invariant
                n <= self.rows@.len(),
                last_row(self.rows@, uuid@, self.rows@.len() as int) == last_row(
                    self.rows@,
                    uuid@,
                    n as int,
                ),
                forall|j: int| n <= j < self.rows@.len() ==> (#[trigger] self.rows@[j]).uuid@
                    != uuid@,
                uuid@ == self.to_fetch@[self.done as int]@,
                self.done < self.to_fetch@.len(),
            decreases n,
        {
            if text::same(&self.rows[n - 1].uuid, uuid) {
                return Some(&self.rows[n - 1]);
            }
            n = n - 1;
        }
        assert(has_row(self.rows@, self.to_fetch@[self.done as int]@));
        None
    }

    /// Notes that the contents of the current row did not come.
    pub fn missing(&mut self)
        requires
            old(self).wf(),
            old(self).done < old(self).to_fetch@.len(),
        ensures
            final(self).wf(),
            final(self).same_but_result(old(self)),
            final(self).done == old(self).done + 1,
            final(self).manifest == old(self).manifest,
            final(self).result == (ProcessingsResult {
                failed: final(self).result.failed,
                ..old(self).result
            }),
            failure_views(final(self).result.failed@) == failure_views(
                old(self).result.failed@,
            ).push((old(self).current_row().name@, "блоб не найден в batch-ответе"@)),
    {
        let name = match self.current() {
            Some(row) => row.name.clone(),
            None => String::new(),
        };
        self.push_failure(name, "блоб не найден в batch-ответе".to_owned());
    }

    /// Everything but what is done, what came of it and the manifest is as it
    /// was.
    pub open spec fn same_but_result(&self, before: &ProcessingsRun) -> bool {
        self.rows == before.rows && self.to_fetch == before.to_fetch && self.deleted
            == before.deleted
    }

    /// Adds a failure.
    fn push_failure(&mut self, name: String, what: String)
        requires
            old(self).wf(),
            old(self).done < old(self).to_fetch@.len(),
        ensures
            final(self).wf(),
            final(self).same_but_result(old(self)),
            final(self).done == old(self).done + 1,
            final(self).manifest == old(self).manifest,
            final(self).result == (ProcessingsResult {
                failed: final(self).result.failed,
                ..old(self).result
            }),
            failure_views(final(self).result.failed@) == failure_views(
                old(self).result.failed@,
            ).push((name@, what@)),
    {
        let total: usize = self.to_fetch.len();
        assert(self.done < total);
        let ghost before = self.result.failed@;
        self.result.failed.push((name, what));
        self.done = self.done + 1;
        assert(failure_views(self.result.failed@) =~= failure_views(before).push((name@, what@)));
    }

    /// Notes that the current row could not be exported. One that is
    /// registered without a file is no failure.
    pub fn failed(&mut self, error: &ExportError)
        requires
            old(self).wf(),
            old(self).done < old(self).to_fetch@.len(),
        ensures
            final(self).wf(),
            final(self).same_but_result(old(self)),
            final(self).done == old(self).done + 1,
            final(self).manifest == old(self).manifest,
            *error is Empty ==> final(self).result == (
            ProcessingsResult {
                skipped_empty: final(self).result.skipped_empty,
                ..old(self).result
            }) && text::views(final(self).result.skipped_empty@) == text::views(
                old(self).result.skipped_empty@,
            ).push(old(self).current_row().name@),
            !(*error is Empty) ==> final(self).result == (
            ProcessingsResult { failed: final(self).result.failed, ..old(self).result })
                && failure_views(final(self).result.failed@) == failure_views(
                old(self).result.failed@,
            ).push((old(self).current_row().name@, crate::error::error_text(error@))),
    {
        let name = match self.current() {
            Some(row) => row.name.clone(),
            None => String::new(),
        };
        let total: usize = self.to_fetch.len();
        assert(self.done < total);
        if matches!(error, ExportError::Empty) {
            let ghost before = self.result.skipped_empty@;
            self.result.skipped_empty.push(name);
            self.done = self.done + 1;
            assert(text::views(self.result.skipped_empty@) =~= text::views(before).push(name@));
        } else {
            self.push_failure(name, error.message());
        }
    }

    /// Notes that the current row was exported at the time `updated`, and
    /// whether it is new.
    pub fn written(&mut self, entry: &Entry, updated: String) -> (was_new: bool)
        requires
            old(self).wf(),
            old(self).done < old(self).to_fetch@.len(),
        ensures
            final(self).wf(),
            final(self).same_but_result(old(self)),
            final(self).done == old(self).done + 1,
            was_new == !old(self).manifest.items@.dom().contains(old(self).current_row().uuid@),
            exists|item: ManifestItem|
                #[trigger] is_item_of(item, old(self).current_row(), entry@, updated@)
                    && final(self).manifest.items@ == old(self).manifest.items@.insert(
                    old(self).current_row().uuid@,
                    item,
                ),
            final(self).manifest.source == old(self).manifest.source,
            final(self).manifest.source_discovered_at == old(self).manifest.source_discovered_at,
            final(self).manifest.kind_uuid_to_name == old(self).manifest.kind_uuid_to_name,
            final(self).result.new == old(self).result.new + if was_new {
                1int
            } else {
                0
            },
            final(self).result.changed == old(self).result.changed + if was_new {
                0int
            } else {
                1
            },
            text::views(final(self).result.fresh_names@) == text::views(
                old(self).result.fresh_names@,
            ).push(entry@.name),
            final(self).result.unchanged == old(self).result.unchanged,
            final(self).result.deleted == old(self).result.deleted,
            final(self).result.failed == old(self).result.failed,
            final(self).result.skipped_empty == old(self).result.skipped_empty,
    {
        let (uuid, name, kind, hash) = match self.current() {
            Some(row) => (row.uuid.clone(), row.name.clone(), row.kind.clone(), row.hash.clone()),
            None => (String::new(), String::new(), String::new(), String::new()),
        };
        let total: usize = self.to_fetch.len();
        assert(self.done < total);
        let was_new = !self.manifest.items.contains_key(&uuid);
        let item = ManifestItem {
            name,
            kind,
            hash,
            path: entry.path.clone(),
            size: entry.binary.len() as u64,
            updated,
        };
        assert(is_item_of(item, self.current_row(), entry@, updated@));
        self.manifest.items.insert(uuid, item);
        if was_new {
            self.result.new = self.result.new + 1;
        } else {
            self.result.changed = self.result.changed + 1;
        }
        let ghost before = self.result.fresh_names@;
        self.result.fresh_names.push(entry.name.clone());
        assert(text::views(self.result.fresh_names@) =~= text::views(before).push(entry.name@));
        self.done = self.done + 1;
        was_new
    }

    /// Forgets what is no longer in the catalogue; returns the paths of what
    /// was exported of it.
    pub fn remove_orphans(&mut self) -> (r: Vec<String>)
        requires
            old(self).wf(),
            old(self).result.deleted == 0,
        ensures
            final(self).wf(),
            final(self).same_but_result(old(self)),
            final(self).done == old(self).done,
            text::views(r@) == removed_paths(
                old(self).manifest.items@,
                text::views(old(self).deleted@),
            ),
            final(self).manifest.items@ == left_items(
                old(self).manifest.items@,
                text::views(old(self).deleted@),
            ),
            final(self).result == (ProcessingsResult {
                deleted: r@.len() as usize,
                ..old(self).result
            }),
    {
        let ghost keys = text::views(self.deleted@);
        let ghost items = self.manifest.items@;
        let mut out: Vec<String> = Vec::new();
        let n: usize = self.deleted.len();
        assert(keys.skip(0) =~= keys);
        assert(text::views(out@) + removed_paths(items, keys) =~= removed_paths(items, keys));
        for i in 0..n
            invariant
                self.wf(),
                self.same_but_result(old(self)),
                self.done == old(self).done,
                self.result == (ProcessingsResult {
                    deleted: self.result.deleted,
                    ..old(self).result
                }),
                n == self.deleted@.len(),
                keys == text::views(self.deleted@),
                self.result.deleted == out@.len(),
                out@.len() <= i,
                text::views(out@) + removed_paths(self.manifest.items@, keys.skip(i as int))
                    == removed_paths(items, keys),
                left_items(self.manifest.items@, keys.skip(i as int)) == left_items(items, keys),
        {
            let ghost rest = keys.skip(i as int);
            let ghost now = self.manifest.items@;
            assert(rest.skip(1) =~= keys.skip(i + 1));
            assert(rest[0] == self.deleted@[i as int]@);
            let key = self.deleted[i].clone();
            if let Some(item) = self.manifest.items.remove(&key) {
                let ghost before = text::views(out@);
                let path = item.path.clone();
                out.push(path);
                assert(text::views(out@) =~= before.push(path@));
                assert(before + (seq![path@] + removed_paths(now.remove(rest[0]), rest.skip(1)))
                    =~= text::views(out@) + removed_paths(now.remove(rest[0]), rest.skip(1)));
                self.result.deleted = self.result.deleted + 1;
            } else {
                assert(now.remove(rest[0]) =~= now);
            }
        }
        assert(keys.skip(n as int) =~= Seq::empty());
        assert(text::views(out@) + Seq::<Seq<char>>::empty() =~= text::views(out@));
        out
    }
}

/// Names and error texts, by their views.
pub open spec fn failure_views(v: Seq<(String, String)>) -> Seq<(Seq<char>, Seq<char>)> {
    v.map_values(|p: (String, String)| (p.0@, p.1@))
}

/// The paths of the items that are taken out of a manifest.
pub open spec fn removed_paths(
    items: Map<Seq<char>, ManifestItem>,
    uuids: Seq<Seq<char>>,
) -> Seq<Seq<char>>
    decreases uuids.len(),
{
    if uuids.len() == 0 {
        Seq::empty()
    } else if items.dom().contains(uuids[0]) {
        seq![items[uuids[0]].path@] + removed_paths(items.remove(uuids[0]), uuids.skip(1))
    } else {
        removed_paths(items, uuids.skip(1))
    }
}

/// What is left of a manifest without the given references.
pub open spec fn left_items(
    items: Map<Seq<char>, ManifestItem>,
    uuids: Seq<Seq<char>>,
) -> Map<Seq<char>, ManifestItem>
    decreases uuids.len(),
{
    if uuids.len() == 0 {
        items
    } else {
        left_items(items.remove(uuids[0]), uuids.skip(1))
    }
}

// One processor.

/// A processor ready to be written.
#[derive(Debug)]
pub struct Entry {
    pub binary: Vec<u8>,
    /// The file name without its extension.
    pub name: String,
    pub file_name: String,
    /// The path of the file in the output directory.
    pub path: String,
    /// The name that an earlier export may have given the file.
    pub stale_file: String,
}

/// A processor ready to be written.
pub struct EntryView {
    pub binary: Seq<u8>,
    pub name: Seq<char>,
    pub file_name: Seq<char>,
    pub path: Seq<char>,
    pub stale_file: Seq<char>,
}

impl View for Entry {
    type V = EntryView;

    open spec fn view(&self) -> EntryView {
        EntryView {
            binary: self.binary@,
            name: self.name@,
            file_name: self.file_name@,
            path: self.path@,
            stale_file: self.stale_file@,
        }
    }
}

/// The item that a manifest gets for a row exported as `entry`.
pub open spec fn is_item_of(
    item: ManifestItem,
    row: DbRow,
    entry: EntryView,
    updated: Seq<char>,
) -> bool {
    item.name@ == row.name@ && item.kind@ == row.kind@ && item.hash@ == row.hash@ && item.path@
        == entry.path && item.size == entry.binary.len() && item.updated@ == updated
}

/// The extension that the file may have had before.
pub open spec fn other_extension(ext: Seq<char>) -> Seq<char> {
    if ext == ".epf"@ {
        ".erf"@
    } else {
        ".epf"@
    }
}

/// A row and its contents, ready to be written with the given extension.
pub open spec fn entry_of(row: DbRow, binary: Seq<u8>, ext: Seq<char>) -> EntryView {
    let name = safe_name(row.name@);
    EntryView {
        binary,
        name,
        file_name: name + ext,
        path: "processings/"@ + (name + ext),
        stale_file: name + other_extension(ext),
    }
}

/// What a row becomes: its contents have to be unpacked, and where its hash is
/// a checksum, `md5` of the contents has to equal it.
pub open spec fn checked_entry(
    row: DbRow,
    binary: Result<Seq<u8>, ErrorView>,
    md5: Seq<char>,
    ext: Seq<char>,
    hash_is_binary: bool,
) -> Result<EntryView, ErrorView> {
    match binary {
        Err(e) => Err(e),
        Ok(b) => if !hash_is_binary && !text::eq_ignore_case(md5, row.hash@) {
            Err(
                ErrorView::ValueStorage(
                    "MD5 не совпал: в БД "@ + row.hash@ + ", вычислено "@ + md5,
                ),
            )
        } else {
            Ok(entry_of(row, b, ext))
        },
    }
}

/// The result of preparing a row, by its views.
pub open spec fn entry_view(r: Result<Entry, ExportError>) -> Result<EntryView, ErrorView> {
    match r {
        Ok(e) => Ok(e@),
        Err(e) => Err(e@),
    }
}

/// Prepares a row whose contents were unpacked, whose checksum was computed
/// and whose extension was found.
pub fn check_entry(
    row: &DbRow,
    binary: Result<Vec<u8>, ExportError>,
    md5: &str,
    ext: &str,
    hash_is_binary: bool,
) -> (r: Result<Entry, ExportError>)
    ensures
        entry_view(r) == checked_entry(*row, unpacked_view(binary), md5@, ext@, hash_is_binary),
{
    match binary {
        Err(e) => Err(e),
        Ok(b) => {
            if !hash_is_binary && !text::same_ignore_case(md5, &row.hash) {
                let mut m = "MD5 не совпал: в БД ".to_owned();
                m.append(&row.hash);
                m.append(", вычислено ");
                m.append(md5);
                return Err(ExportError::ValueStorage(m));
            }
            let name = sanitize_filename(&row.name);
            let mut file_name = name.clone();
            file_name.append(ext);
            let mut path = "processings/".to_owned();
            path.append(&file_name);
            let mut stale_file = name.clone();
            if text::same(ext, ".epf") {
                stale_file.append(".erf");
            } else {
                stale_file.append(".epf");
            }
            Ok(Entry { binary: b, name, file_name, path, stale_file })
        },
    }
}

/// The kind of a row in words, or its reference where the kinds do not name
/// it. `upper` is the reference in capital letters.
pub open spec fn kind_in_words(
    kinds: Map<Seq<char>, Seq<char>>,
    kind: Seq<char>,
    upper: Seq<char>,
) -> Seq<char> {
    if kinds.dom().contains(upper) {
        kinds[upper]
    } else {
        kind
    }
}

/// What a row becomes whose contents are stored as `vs`.
pub open spec fn prepared(
    row: DbRow,
    vs: Seq<u8>,
    hash_is_binary: bool,
    kinds: Map<Seq<char>, Seq<char>>,
) -> Result<EntryView, ErrorView> {
    checked_entry(
        row,
        unpacked(vs, codec::inflate(vs.skip(18))),
        match unpacked(vs, codec::inflate(vs.skip(18))) {
            Ok(b) => text::hex(codec::md5_digest(b), 'A'),
            Err(_) => Seq::empty(),
        },
        extension(text::lower(kind_in_words(kinds, row.kind@, text::upper(row.kind@)))),
        hash_is_binary,
    )
}

/// Prepares a row for writing: unpacks its contents, compares the checksum,
/// names the file.
pub fn process_entry(row: &DbRow, vs: &[u8], hash_is_binary: bool, kinds: &StrMap<String>) -> (r:
    Result<Entry, ExportError>)
    ensures
        entry_view(r) == checked_entry(
            *row,
            unpacked(vs@, codec::inflate(vs@.skip(18))),
            match unpacked(vs@, codec::inflate(vs@.skip(18))) {
                Ok(b) => text::hex(codec::md5_digest(b), 'A'),
                Err(_) => Seq::empty(),
            },
            extension(
                text::lower(
                    kind_in_words(string_map(kinds@), row.kind@, text::upper(row.kind@)),
                ),
            ),
            hash_is_binary,
        ),
        entry_view(r) == prepared(*row, vs@, hash_is_binary, string_map(kinds@)),
{
    let binary = value_storage_to_binary(vs);
    let md5 = match &binary {
        Ok(b) => md5_upper_hex(b),
        Err(_) => String::new(),
    };
    let upper = text::to_uppercase(&row.kind);
    let ext = match kinds.get(&upper) {
        Some(name) => ext_by_kind(name),
        None => ext_by_kind(&row.kind),
    };
    check_entry(row, binary, &md5, ext, hash_is_binary)
}

/// A line for the log with the first sixteen bytes of what was unpacked;
/// nothing where there are fewer.
pub fn preview_line(name: &str, binary: &[u8]) -> (r: Option<String>)
    ensures
        match r {
            Some(s) => binary@.len() >= 16 && s@ == "  "@ + name@ + " первые 16 байт: "@ + hex_list(
                binary@.take(16),
            ),
            None => binary@.len() < 16,
        },
{
    if binary.len() < 16 {
        return None;
    }
    let head = &binary[0..16];
    assert(head@ =~= binary@.take(16));
    let mut s = "  ".to_owned();
    s.append(name);
    s.append(" первые 16 байт: ");
    let hex = hex_list_of(head);
    s.append(&hex);
    Some(s)
}

// Laws of the comparison.

/// What was exported with the hash of its row is not fetched again while the
/// hash stays.
pub proof fn exported_row_is_unchanged(
    items: Map<Seq<char>, ManifestItem>,
    row: DbRow,
    item: ManifestItem,
    entry: EntryView,
    updated: Seq<char>,
)
    requires
        is_item_of(item, row, entry, updated),
    ensures
        is_unchanged(items.insert(row.uuid@, item), row),
{
}

/// Exactly the exported processors that no row has are removed.
pub proof fn orphans_have_no_row(keys: Seq<Seq<char>>, rows: Seq<DbRow>, key: Seq<char>)
    ensures
        orphans(keys, rows).contains(key) <==> keys.contains(key) && !has_row(rows, key),
    decreases keys.len(),
{
    if keys.len() > 0 {
        let k0 = keys.drop_last();
        orphans_have_no_row(k0, rows, key);
        let o0 = orphans(k0, rows);
        let o = orphans(keys, rows);
        if keys.contains(key) {
            let i = keys.index_of(key);
            if i < k0.len() {
                assert(k0[i] == key);
            }
        }
        if k0.contains(key) {
            let i = k0.index_of(key);
            assert(keys[i] == key);
        }
        if o0.contains(key) {
            let i = o0.index_of(key);
            assert(o[i] == key);
        }
        if o.contains(key) {
            let i = o.index_of(key);
            if i < o0.len() {
                assert(o0[i] == key);
            } else {
                assert(keys[keys.len() - 1] == key);
            }
        }
        if !has_row(rows, keys.last()) {
            assert(o[o.len() - 1] == keys.last());
        }
        assert(keys[keys.len() - 1] == keys.last());
    }
}

proof fn lemma_left_items(
    items: Map<Seq<char>, ManifestItem>,
    uuids: Seq<Seq<char>>,
    key: Seq<char>,
)
    ensures
        left_items(items, uuids).dom().contains(key) <==> items.dom().contains(key)
            && !uuids.contains(key),
        left_items(items, uuids).dom().contains(key) ==> left_items(items, uuids)[key]
            == items[key],
    decreases uuids.len(),
{
    if uuids.len() > 0 {
        lemma_left_items(items.remove(uuids[0]), uuids.skip(1), key);
        if uuids.contains(key) {
            let i = uuids.index_of(key);
            if i > 0 {
                assert(uuids.skip(1)[i - 1] == key);
            }
        }
        if uuids.skip(1).contains(key) {
            let i = uuids.skip(1).index_of(key);
            assert(uuids[i + 1] == key);
        }
        assert(uuids[0] == uuids[0]);
    }
}

/// After the orphans are removed, every item of the manifest has a row, and
/// what has a row is as it was.
pub proof fn manifest_follows_the_catalogue(
    items: Map<Seq<char>, ManifestItem>,
    keys: Seq<Seq<char>>,
    rows: Seq<DbRow>,
    key: Seq<char>,
)
    requires
        items.dom().contains(key) ==> keys.contains(key) || has_row(rows, key),
    ensures
        left_items(items, orphans(keys, rows)).dom().contains(key) ==> has_row(rows, key),
        items.dom().contains(key) && has_row(rows, key) ==> left_items(
            items,
            orphans(keys, rows),
        ).dom().contains(key) && left_items(items, orphans(keys, rows))[key] == items[key],
{
    orphans_have_no_row(keys, rows, key);
    lemma_left_items(items, orphans(keys, rows), key);
}

/// Where all is done, every row of the catalogue is accounted for: it was
/// unchanged, new, changed, empty or failed.
pub proof fn every_row_is_accounted_for(run: ProcessingsRun)
    requires
        run.wf(),
        run.done == run.to_fetch@.len(),
    ensures
        run.result.unchanged + run.result.new + run.result.changed
            + run.result.skipped_empty@.len() + run.result.failed@.len() == run.rows@.len(),
{
}

// Discovery through the platform.

/// The command that has the platform write the storage structure of the
/// catalogue into a file.
pub open spec fn discovery_args(
    c: AppConfig,
    platform: Seq<char>,
    json_out: Seq<char>,
    log_out: Seq<char>,
) -> Seq<Seq<char>> {
    let login = if c.authentication.auth_type == AuthType::Os {
        seq!["/WA+"@]
    } else {
        command_builder::filled_arg("/N"@, c.authentication.login@) + command_builder::filled_arg(
            "/P"@,
            c.authentication.password@,
        )
    };
    seq![
        platform,
        "ENTERPRISE"@,
        "/DisableStartupDialogs"@,
        "/DisableStartupMessages"@,
        "/S"@ + (config::or_else(c.server_1c@, c.server@) + "\\"@ + c.database@),
    ] + login + seq!["/CBatchGetProcessingsStructure;Out="@ + json_out] + seq!["/Out"@ + log_out]
}

/// The command that has the platform write the storage structure of the
/// catalogue into a file.
pub fn discovery_command(config: &AppConfig, platform: &str, json_out: &str, log_out: &str) -> (r:
    Vec<String>)
    ensures
        text::views(r@) == discovery_args(*config, platform@, json_out@, log_out@),
{
    let mut target = config.server_for_1c().to_owned();
    target.append("\\");
    target.append(&config.database);
    let mut place = "/S".to_owned();
    place.append(&target);
    let mut cmd = text::list5(
        platform,
        "ENTERPRISE",
        "/DisableStartupDialogs",
        "/DisableStartupMessages",
        &place,
    );
    let ghost start = text::views(cmd@);
    match config.authentication.auth_type {
        AuthType::Os => command_builder::put(&mut cmd, "/WA+"),
        AuthType::Password => {
            command_builder::put_filled(&mut cmd, "/N", &config.authentication.login);
            command_builder::put_filled(&mut cmd, "/P", &config.authentication.password);
        },
    }
    command_builder::put_pair(&mut cmd, "/CBatchGetProcessingsStructure;Out=", json_out);
    command_builder::put_pair(&mut cmd, "/Out", log_out);
    assert(text::views(cmd@) =~= discovery_args(*config, platform@, json_out@, log_out@));
    cmd
}

/// The text of a log file of the platform: UTF-8, else windows-1251, without
/// the white space around it.
pub open spec fn log_content(bytes: Seq<u8>) -> Seq<char> {
    text::trim(
        match codec::utf8(bytes) {
            Some(s) => s,
            None => codec::windows_1251(bytes).0,
        },
    )
}

/// The text of a log file of the platform.
pub fn log_text(bytes: &[u8]) -> (r: String)
    requires
        bytes@.len() <= usize::MAX / 8,
    ensures
        r@ == log_content(bytes@),
{
    match codec::from_utf8(bytes) {
        Some(s) => text::trimmed(&s),
        None => {
            let (s, _) = codec::decode_windows_1251(bytes);
            text::trimmed(&s)
        },
    }
}

/// A log as an error text shows it.
pub open spec fn shown_log(log: Seq<char>) -> Seq<char> {
    if text::trim(log).len() == 0 {
        "<пусто>"@
    } else {
        log
    }
}

/// What went wrong with a run of the platform: it failed, or it did not write
/// the file.
pub open spec fn discovery_error(
    run: CommandResult,
    log: Seq<char>,
    json_exists: bool,
    json_out: Seq<char>,
) -> Option<ErrorView> {
    if !run.success {
        Some(
            ErrorView::CommandFailed(
                run.return_code as int,
                "Enterprise BatchGetProcessingsStructure упал. Лог 1С: "@ + shown_log(log)
                    + " | stdout: "@ + run.stdout@ + " | stderr: "@ + run.stderr@,
            ),
        )
    } else if !json_exists {
        Some(
            ErrorView::Config(
                "Enterprise отработал (код 0), но JSON-файл "@ + json_out
                    + " не создан. Лог 1С: "@ + shown_log(log)
                    + ". Вероятно, в расширении ВыгрузкаВсехВнешнихОбработок отсутствует обработчик команды BatchGetProcessingsStructure, либо расширение не применено в ИБ. Добавьте блок из resources/ManagedApplicationModule_patch.bsl.txt в ManagedApplicationModule.bsl расширения и примените (F7)."@,
            ),
        )
    } else {
        None
    }
}

/// Checks a run of the platform.
pub fn check_discovery_run(run: &CommandResult, log: &str, json_exists: bool, json_out: &str) -> (r:
    Result<(), ExportError>)
    ensures
        match discovery_error(*run, log@, json_exists, json_out@) {
            Some(e) => r matches Err(x) && x@ == e,
            None => r is Ok,
        },
{
    let shown = if text::trimmed(log).as_str().is_empty() {
        "<пусто>".to_owned()
    } else {
        log.to_owned()
    };
    if !run.success {
        let mut m = "Enterprise BatchGetProcessingsStructure упал. Лог 1С: ".to_owned();
        m.append(&shown);
        m.append(" | stdout: ");
        m.append(&run.stdout);
        m.append(" | stderr: ");
        m.append(&run.stderr);
        return Err(ExportError::CommandFailed { code: run.return_code, message: m });
    }
    if !json_exists {
        let mut m = "Enterprise отработал (код 0), но JSON-файл ".to_owned();
        m.append(json_out);
        m.append(" не создан. Лог 1С: ");
        m.append(&shown);
        m.append(
            ". Вероятно, в расширении ВыгрузкаВсехВнешнихОбработок отсутствует обработчик команды BatchGetProcessingsStructure, либо расширение не применено в ИБ. Добавьте блок из resources/ManagedApplicationModule_patch.bsl.txt в ManagedApplicationModule.bsl расширения и примените (F7).",
        );
        return Err(ExportError::Config(m));
    }
    Ok(())
}

/// The columns of a catalogue as the platform names them: by attribute, or as
/// a list.
#[derive(Debug)]
pub enum DiscoveryFields {
    ByName(StrMap<String>),
    List(Vec<DiscoveryField>),
}

/// An attribute and its column.
#[derive(Debug, Clone)]
pub struct DiscoveryField {
    pub name: String,
    pub storage: String,
}

/// The storage structure of a catalogue as the platform writes it.
#[derive(Debug)]
pub struct DiscoveryDto {
    pub table: String,
    pub fields: DiscoveryFields,
}

/// The column of the first field of a list, from the place `i` on, that has
/// the name and a column.
pub open spec fn listed_storage(fields: Seq<DiscoveryField>, name: Seq<char>, i: int) -> Option<
    Seq<char>,
>
    decreases fields.len() - i,
{
    if i < 0 || i >= fields.len() {
        None
    } else if fields[i].name@ == name && fields[i].storage@.len() > 0 {
        Some(fields[i].storage@)
    } else {
        listed_storage(fields, name, i + 1)
    }
}

/// The column of an attribute.
pub open spec fn storage_of(fields: DiscoveryFields, name: Seq<char>) -> Option<Seq<char>> {
    match fields {
        DiscoveryFields::ByName(m) => if m@.dom().contains(name) && m@[name]@.len() > 0 {
            Some(m@[name]@)
        } else {
            None
        },
        DiscoveryFields::List(l) => listed_storage(l@, name, 0),
    }
}

/// `names` are the attributes that the fields name, each once and in order.
pub open spec fn is_name_list(fields: DiscoveryFields, names: Seq<Seq<char>>) -> bool {
    strmap::ordered(names) && match fields {
        DiscoveryFields::ByName(m) => names == m.keys(),
        DiscoveryFields::List(l) => forall|n: Seq<char>| #[trigger]
            names.contains(n) <==> exists|i: int| 0 <= i < l@.len() && (#[trigger] l@[i]).name@ == n,
    }
}

impl DiscoveryDto {
    /// The column of an attribute.
    pub fn pick_single_storage(&self, req_name: &str) -> (r: Option<String>)
        ensures
            text::opt_view(r) == storage_of(self.fields, req_name@),
    {
        match &self.fields {
            DiscoveryFields::ByName(m) => match m.get(req_name) {
                Some(s) => if s.as_str().is_empty() {
                    None
                } else {
                    Some(s.clone())
                },
                None => None,
            },
            DiscoveryFields::List(l) => {
                let n: usize = l.len();
                let mut i: usize = 0;
                while i < n
                    invariant
                        n == l@.len(),
                        self.fields == DiscoveryFields::List(*l),
                        i <= n,
                        listed_storage(l@, req_name@, 0) == listed_storage(
                            l@,
                            req_name@,
                            i as int,
                        ),
                    decreases n - i,
                {
                    if text::same(&l[i].name, req_name) && !l[i].storage.as_str().is_empty() {
                        return Some(l[i].storage.clone());
                    }
                    i = i + 1;
                }
                None
            },
        }
    }

    /// The attributes that the fields name, each once and in order.
    pub fn all_names(&self) -> (r: Vec<String>)
        ensures
            is_name_list(self.fields, text::views(r@)),
    {
        match &self.fields {
            DiscoveryFields::ByName(m) => keys_in_order(m),
            DiscoveryFields::List(l) => {
                let mut seen: StrMap<bool> = StrMap::new();
                for i in 0..l.len()
                    invariant
                        forall|n: Seq<char>| #[trigger]
                            seen@.dom().contains(n) <==> exists|j: int|
                                0 <= j < i && (#[trigger] l@[j]).name@ == n,
                {
                    let ghost before = seen@;
                    seen.insert(l[i].name.clone(), true);
                    assert forall|n: Seq<char>| #[trigger]
                        seen@.dom().contains(n) <==> exists|j: int|
                            0 <= j < i + 1 && (#[trigger] l@[j]).name@ == n by {
                        if n == l@[i as int].name@ {
                            assert(l@[i as int].name@ == n);
                        } else if before.dom().contains(n) {
                            let j = choose|j: int| 0 <= j < i && (#[trigger] l@[j]).name@ == n;
                            assert(l@[j].name@ == n);
                        }
                    }
                }
                let names = keys_in_order(&seen);
                assert forall|n: Seq<char>| #[trigger]
                    text::views(names@).contains(n) <==> exists|i: int|
                        0 <= i < l@.len() && (#[trigger] l@[i]).name@ == n by {
                    assert(seen@.dom().contains(n) == seen.keys().contains(n));
                }
                names
            },
        }
    }

    /// The number of fields.
    pub fn count(&self) -> (r: usize)
        ensures
            r == match self.fields {
                DiscoveryFields::ByName(m) => m.keys().len(),
                DiscoveryFields::List(l) => l@.len(),
            },
    {
        match &self.fields {
            DiscoveryFields::ByName(m) => m.len(),
            DiscoveryFields::List(l) => l.len(),
        }
    }
}

/// The keys of a map in their order.
fn keys_in_order<T>(m: &StrMap<T>) -> (r: Vec<String>)
    ensures
        text::views(r@) == m.keys(),
        strmap::ordered(m.keys()),
        forall|k: Seq<char>| #[trigger] m@.dom().contains(k) == m.keys().contains(k),
{
    let n: usize = m.len();
    let mut out: Vec<String> = Vec::new();
    for i in 0..n
        invariant
            n == m.keys().len(),
            text::views(out@) == m.keys().take(i as int),
    {
        let ghost before = out@;
        let k = m.key_at(i).clone();
        out.push(k);
        assert(text::views(out@) =~= text::views(before).push(k@));
        assert(m.keys().take(i + 1) =~= m.keys().take(i as int).push(m.keys()[i as int]));
    }
    assert(m.keys().take(n as int) =~= m.keys());
    out
}

/// A name with an underscore in front.
pub open spec fn with_underscore(s: Seq<char>) -> Seq<char> {
    if text::starts(s, "_"@) {
        s
    } else {
        "_"@ + s
    }
}

/// A name with an underscore in front.
fn prefix_underscore(s: &str) -> (r: String)
    ensures
        r@ == with_underscore(s@),
{
    if text::starts_with(s, "_") {
        s.to_owned()
    } else {
        let mut m = "_".to_owned();
        m.append(s);
        m
    }
}

/// The message about an attribute that the platform did not name.
pub open spec fn missing_attribute(
    name: Seq<char>,
    names: Seq<Seq<char>>,
    json_out: Seq<char>,
) -> Seq<char> {
    "в discovery-JSON нет реквизита "@ + name + ". Есть: ["@ + text::join(names, ", "@)
        + "]. Файл оставлен: "@ + json_out
}

/// The mapping that the storage structure of a catalogue gives: the checksum
/// is the hash, or else the row version.
pub open spec fn discovered(
    dto: DiscoveryDto,
    names: Seq<Seq<char>>,
    json_out: Seq<char>,
) -> Result<MappingView, ErrorView> {
    let storage = storage_of(dto.fields, "ХранилищеОбработки"@);
    let checksum = storage_of(dto.fields, "КонтрольнаяСумма"@);
    let version = storage_of(dto.fields, "ВерсияДанных"@);
    if storage is None {
        Err(ErrorView::Config(missing_attribute("ХранилищеОбработки"@, names, json_out)))
    } else if checksum is None && version is None {
        Err(
            ErrorView::Config(
                missing_attribute("КонтрольнаяСумма или ВерсияДанных"@, names, json_out),
            ),
        )
    } else {
        Ok(
            MappingView {
                table: with_underscore(dto.table@),
                field_storage: with_underscore(storage->0),
                field_hash: with_underscore(
                    if checksum is Some {
                        checksum->0
                    } else {
                        version->0
                    },
                ),
                field_kind: Seq::empty(),
                enum_table: Seq::empty(),
                hash_is_binary: checksum is None,
            },
        )
    }
}

/// The message about an attribute that the platform did not name.
fn missing_attribute_error(name: &str, names: &Vec<String>, json_out: &str) -> (r: ExportError)
    ensures
        r@ == ErrorView::Config(missing_attribute(name@, text::views(names@), json_out@)),
{
    let mut m = "в discovery-JSON нет реквизита ".to_owned();
    m.append(name);
    m.append(". Есть: [");
    let list = text::joined(names, ", ");
    m.append(&list);
    m.append("]. Файл оставлен: ");
    m.append(json_out);
    ExportError::Config(m)
}

/// The mapping that the storage structure of a catalogue gives.
pub fn mapping_from_discovery(dto: &DiscoveryDto, json_out: &str) -> (r: Result<
    StorageMapping,
    ExportError,
>)
    ensures
        exists|names: Seq<Seq<char>>| #[trigger]
            is_name_list(dto.fields, names) && discovered(*dto, names, json_out@) == match r {
                Ok(m) => Ok(m@),
                Err(e) => Err(e@),
            },
{
    let names = dto.all_names();
    let ghost list = text::views(names@);
    let storage = match dto.pick_single_storage("ХранилищеОбработки") {
        Some(s) => s,
        None => {
            let e = missing_attribute_error("ХранилищеОбработки", &names, json_out);
            assert(discovered(*dto, list, json_out@) == Err::<MappingView, ErrorView>(e@));
            return Err(e);
        },
    };
    let (hash, hash_is_binary) = match dto.pick_single_storage("КонтрольнаяСумма") {
        Some(s) => (s, false),
        None => match dto.pick_single_storage("ВерсияДанных") {
            Some(s) => (s, true),
            None => {
                let e = missing_attribute_error(
                    "КонтрольнаяСумма или ВерсияДанных",
                    &names,
                    json_out,
                );
                assert(discovered(*dto, list, json_out@) == Err::<MappingView, ErrorView>(e@));
                return Err(e);
            },
        },
    };
    let m = StorageMapping {
        table: prefix_underscore(&dto.table),
        field_storage: prefix_underscore(&storage),
        field_hash: prefix_underscore(&hash),
        field_kind: String::new(),
        enum_table: String::new(),
        hash_is_binary,
    };
    assert(discovered(*dto, list, json_out@) == Ok::<MappingView, ErrorView>(m@));
    Ok(m)
}

// Connection.

/// What an export of processors needs to know.
#[derive(Debug)]
pub struct ProcessingsParams {
    pub sql_server: String,
    /// Under which name the state of the export is kept.
    pub repo_id: String,
    /// Whether only what has changed is exported.
    pub incremental: bool,
    pub database: String,
    pub db_auth: IbcmdDbAuth,
    pub db_user: Option<String>,
    pub db_pwd: Option<String>,
    pub mapping: StorageMapping,
    pub kind_uuid_to_name: StrMap<String>,
}

/// The login for the database server: none where the system's user is taken;
/// an error where a part of it is missing.
pub fn sql_login(db_auth: IbcmdDbAuth, db_user: &Option<String>, db_pwd: &Option<String>) -> (r:
    Result<Option<(String, String)>, ExportError>)
    ensures
        match db_auth {
            IbcmdDbAuth::Windows => r == Ok::<Option<(String, String)>, ExportError>(None),
            IbcmdDbAuth::SqlLogin => match (db_user, db_pwd) {
                (Some(u), Some(p)) => r matches Ok(Some(pair)) && pair.0@ == u@ && pair.1@ == p@,
                (None, _) => r matches Err(e) && e@ == ErrorView::Sql(
                    "SQL-логин не указан (--ibcmd-db-user)"@,
                ),
                (_, None) => r matches Err(e) && e@ == ErrorView::Sql(
                    "SQL-пароль не указан (--ibcmd-db-pwd)"@,
                ),
            },
        },
{
    match db_auth {
        IbcmdDbAuth::Windows => Ok(None),
        IbcmdDbAuth::SqlLogin => match db_user {
            None => Err(ExportError::Sql("SQL-логин не указан (--ibcmd-db-user)".to_owned())),
            Some(u) => match db_pwd {
                None => Err(ExportError::Sql("SQL-пароль не указан (--ibcmd-db-pwd)".to_owned())),
                Some(p) => Ok(Some((u.clone(), p.clone()))),
            },
        },
    }
}

// Laws of what is stored and fetched.

/// The mark of a container stands in the bytes at a place.
pub open spec fn has_mark_at(d: Seq<u8>, i: int) -> bool {
    0 <= i && i + 4 <= d.len() && d[i] == 0xFF && d[i + 1] == 0xFF && d[i + 2] == 0xFF && d[i + 3]
        == 0x7F
}

proof fn lemma_mark_at(d: Seq<u8>, i: int)
    ensures
        bytes_at(d, container_mark(), i) == has_mark_at(d, i),
{
    let m = container_mark();
    if 0 <= i && i + 4 <= d.len() {
        let part = d.subrange(i, i + 4);
        if has_mark_at(d, i) {
            assert(part =~= m);
        }
        if part == m {
            assert(part[0] == d[i] && part[1] == d[i + 1] && part[2] == d[i + 2] && part[3] == d[i
                + 3]);
            assert(m[0] == 0xFF && m[1] == 0xFF && m[2] == 0xFF && m[3] == 0x7F);
        }
    }
}

proof fn lemma_from_mark(d: Seq<u8>, i: int)
    ensures
        has_mark_at(d, i) && (forall|j: int| 0 <= j < i ==> !has_mark_at(d, j)) ==> from_mark(d)
            == Some(d.skip(i)),
        (forall|j: int| !has_mark_at(d, j)) ==> from_mark(d) is None,
{
    let m = container_mark();
    lemma_find_bytes(d, m, 0);
    assert forall|j: int| bytes_at(d, m, j) == has_mark_at(d, j) by {
        lemma_mark_at(d, j);
    }
    if let Some(k) = find_bytes_from(d, m, 0) {
        assert(has_mark_at(d, k));
        if has_mark_at(d, i) && (forall|j: int| 0 <= j < i ==> !has_mark_at(d, j)) {
            assert(bytes_at(d, m, i));
            if k < i {
                assert(!has_mark_at(d, k));
            }
            if i < k {
                assert(!bytes_at(d, m, i));
            }
            assert(k == i);
        }
    } else if has_mark_at(d, i) {
        assert(bytes_at(d, m, i));
    }
}

/// A stored value gives the whole container: all bytes from the first mark of
/// one on, and nothing before it. A compressed value, which begins with 02 01,
/// has it in what the part behind its 18 bytes inflates to, a plain one, which
/// begins with 01 01, behind these two bytes.
pub proof fn whole_container_is_unpacked(
    vs: Seq<u8>,
    data: Result<Seq<u8>, Seq<char>>,
    i: int,
)
    requires
        vs.len() >= 2,
    ensures
        vs[0] == 2 && vs[1] == 1 && vs.len() > 18 && data is Ok && has_mark_at(data->Ok_0, i) && (
        forall|j: int| 0 <= j < i ==> !has_mark_at(data->Ok_0, j)) ==> unpacked(vs, data) == (Ok::<
            Seq<u8>,
            ErrorView,
        >(data->Ok_0.skip(i))),
        vs[0] == 1 && vs[1] == 1 && has_mark_at(vs.skip(2), i) && (forall|j: int|
            0 <= j < i ==> !has_mark_at(vs.skip(2), j)) ==> unpacked(vs, data) == (Ok::<
            Seq<u8>,
            ErrorView,
        >(vs.skip(2).skip(i))),
{
    assert(!is_empty_storage(vs) || vs[0] == 0x53) by {
        if is_empty_storage(vs) {
            assert(vs.take(7)[0] == vs[0]);
        }
    }
    if data is Ok {
        lemma_from_mark(data->Ok_0, i);
    }
    lemma_from_mark(vs.skip(2), i);
}

/// Nothing else is taken for a container: a value that is too short, has
/// another header, cannot be inflated or holds no mark gives an error, and only
/// one that begins with `STORHDR` is empty.
pub proof fn other_values_are_refused(vs: Seq<u8>, data: Result<Seq<u8>, Seq<char>>)
    ensures
        unpacked(vs, data) is Ok ==> vs.len() >= 2 && vs[1] == 1 && (vs[0] == 1 || (vs[0] == 2
            && vs.len() > 18 && data is Ok)),
        vs.len() >= 2 && vs[0] == 1 && vs[1] == 1 && (forall|j: int| !has_mark_at(vs.skip(2), j))
            ==> unpacked(vs, data) is Err,
        vs.len() >= 2 && vs[0] == 2 && vs[1] == 1 && data is Ok && (forall|j: int|
            !has_mark_at(data->Ok_0, j)) ==> unpacked(vs, data) is Err,
        (unpacked(vs, data) matches Err(e) && e is Empty) <==> vs.len() >= 7 && vs[0] == 'S' as u8
            && vs[1] == 'T' as u8 && vs[2] == 'O' as u8 && vs[3] == 'R' as u8 && vs[4] == 'H' as u8
            && vs[5] == 'D' as u8 && vs[6] == 'R' as u8,
{
    let mark = seq![0x53u8, 0x54, 0x4F, 0x52, 0x48, 0x44, 0x52];
    if vs.len() >= 7 {
        let t = vs.take(7);
        if t == mark {
            assert(t[0] == vs[0] && t[1] == vs[1] && t[2] == vs[2] && t[3] == vs[3] && t[4] == vs[4]
                && t[5] == vs[5] && t[6] == vs[6]);
        }
        if vs[0] == 0x53 && vs[1] == 0x54 && vs[2] == 0x4F && vs[3] == 0x52 && vs[4] == 0x48
            && vs[5] == 0x44 && vs[6] == 0x52 {
            assert(t =~= mark);
        }
    }
    if data is Ok {
        lemma_from_mark(data->Ok_0, 0);
    }
    lemma_from_mark(vs.skip(2), 0);
}

/// What is written is what was unpacked. Where the hash of a row is a checksum,
/// it is that of the contents; where it is not, the row is refused. The file
/// bears the safe name of the row and stands for a report or a processor, and an
/// older file of the other kind is known by the same name.
#[verifier::rlimit(40)]
pub proof fn contents_match_their_checksum(
    row: DbRow,
    vs: Seq<u8>,
    hash_is_binary: bool,
    kinds: Map<Seq<char>, Seq<char>>,
)
    ensures
        match (prepared(row, vs, hash_is_binary, kinds), unpacked(vs, codec::inflate(vs.skip(18)))) {
            (Ok(e), Ok(b)) => {
                &&& e.binary == b
                &&& !hash_is_binary ==> text::lowered(text::hex(codec::md5_digest(b), 'A'))
                    == text::lowered(row.hash@)
                &&& e.name == safe_name(row.name@)
                &&& e.file_name == e.name + ".epf"@ || e.file_name == e.name + ".erf"@
                &&& e.stale_file == e.name + ".epf"@ || e.stale_file == e.name + ".erf"@
                &&& e.stale_file != e.file_name
                &&& e.path == "processings/"@ + e.file_name
            },
            (Err(_), Ok(b)) => !hash_is_binary && text::lowered(
                text::hex(codec::md5_digest(b), 'A'),
            ) != text::lowered(row.hash@),
            (Ok(_), Err(_)) => false,
            (Err(e), Err(x)) => e == x,
        },
{
    reveal_strlit(".epf");
    reveal_strlit(".erf");
    if let Ok(b) = unpacked(vs, codec::inflate(vs.skip(18))) {
        text::capital_letters_are_lowered(text::hex(codec::md5_digest(b), 'A'), row.hash@);
        let n = safe_name(row.name@);
        let k = n.len() as int;
        assert((n + ".epf"@)[k + 2] == 'p' && (n + ".erf"@)[k + 2] == 'r');
    }
}

/// A kind that names a report gives a report, every other one a processor.
pub proof fn reports_are_told_by_their_kind(kind: Seq<char>)
    ensures
        extension(kind) == ".erf"@ <==> text::has(kind, "отчёт"@) || text::has(kind, "отчет"@)
            || text::has(kind, "report"@),
        extension(kind) == ".erf"@ || extension(kind) == ".epf"@,
{
    reveal_strlit(".epf");
    reveal_strlit(".erf");
    assert(".epf"@[2] == 'p' && ".erf"@[2] == 'r');
}

/// A reference in the enumeration of kinds has the name of its place there, in
/// whatever case it is written; rows of other references do not matter.
pub proof fn kinds_are_named_by_their_place(
    rows: Seq<KindRow>,
    uuid: String,
    order: i32,
    other: Seq<char>,
)
    ensures
        ({
            let before = kinds_of(rows);
            let after = kinds_of(rows.push((Some(uuid), Some(order))));
            &&& 0 <= order <= 6 ==> after.dom().contains(text::upper(uuid@))
                && after[text::upper(uuid@)] == match order {
                0 => "Дополнительная обработка"@,
                1 => "Дополнительный отчет"@,
                2 => "Заполнение объекта"@,
                3 => "Отчет"@,
                4 => "Печатная форма"@,
                5 => "Создание связанных объектов"@,
                _ => "Шаблон сообщения"@,
            }
            &&& other != text::upper(uuid@) || order < 0 || order > 6 ==> after.dom().contains(other)
                == before.dom().contains(other) && (before.dom().contains(other) ==> after[other]
                == before[other])
        }),
{
    let row: KindRow = (Some(uuid), Some(order));
    assert(rows.push(row).drop_last() =~= rows);
    assert(rows.push(row).last() == row);
}

/// Exactly the rows that are new or whose hash is not the one they were exported
/// with, the case of letters aside, are fetched.
pub proof fn changed_rows_are_fetched(
    items: Map<Seq<char>, ManifestItem>,
    rows: Seq<DbRow>,
    uuid: Seq<char>,
)
    ensures
        fetch_list(items, rows).contains(uuid) <==> exists|i: int|
            0 <= i < rows.len() && (#[trigger] rows[i]).uuid@ == uuid && (!items.dom().contains(uuid)
                || text::lowered(items[uuid].hash@) != text::lowered(rows[i].hash@)),
    decreases rows.len(),
{
    if rows.len() > 0 {
        let r0 = rows.drop_last();
        let n = rows.len() - 1;
        changed_rows_are_fetched(items, r0, uuid);
        let f0 = fetch_list(items, r0);
        let f = fetch_list(items, rows);
        if items.dom().contains(rows[n].uuid@) {
            text::capital_letters_are_lowered(items[rows[n].uuid@].hash@, rows[n].hash@);
        }
        if f0.contains(uuid) {
            let k = f0.index_of(uuid);
            assert(f[k] == uuid);
            let i = choose|i: int|
                0 <= i < r0.len() && (#[trigger] r0[i]).uuid@ == uuid && (!items.dom().contains(uuid)
                    || text::lowered(items[uuid].hash@) != text::lowered(r0[i].hash@));
            assert(rows[i] == r0[i]);
        }
        if f.contains(uuid) {
            let k = f.index_of(uuid);
            if k < f0.len() {
                assert(f0[k] == uuid);
            } else {
                assert(rows[n].uuid@ == uuid);
            }
        }
        if exists|i: int|
            0 <= i < rows.len() && (#[trigger] rows[i]).uuid@ == uuid && (!items.dom().contains(uuid)
                || text::lowered(items[uuid].hash@) != text::lowered(rows[i].hash@)) {
            let i = choose|i: int|
                0 <= i < rows.len() && (#[trigger] rows[i]).uuid@ == uuid && (!items.dom().contains(
                    uuid,
                ) || text::lowered(items[uuid].hash@) != text::lowered(rows[i].hash@));
            if i < n {
                assert(r0[i] == rows[i]);
            } else {
                assert(f[f.len() - 1] == uuid);
            }
        }
    }
}

/// The row that is dealt with is the one that was asked for.
pub proof fn fetched_row_is_the_one_asked_for(run: ProcessingsRun)
    requires
        run.wf(),
        run.done < run.to_fetch@.len(),
    ensures
        run.current_row().uuid@ == run.to_fetch@[run.done as int]@,
        exists|i: int| 0 <= i < run.rows@.len() && #[trigger] run.rows@[i] == run.current_row(),
{
    let uuid = run.to_fetch@[run.done as int]@;
    let n = run.rows@.len() as int;
    lemma_last_row_found(run.rows@, uuid, n);
    assert(has_row(run.rows@, uuid));
    let i = choose|i: int| 0 <= i < n && (#[trigger] run.rows@[i]).uuid@ == uuid;
    let k = last_row(run.rows@, uuid, n);
    assert(run.rows@[k] == run.current_row());
}

proof fn lemma_last_row_found(rows: Seq<DbRow>, uuid: Seq<char>, n: int)
    requires
        0 <= n <= rows.len(),
    ensures
        last_row(rows, uuid, n) < n,
        last_row(rows, uuid, n) >= 0 ==> rows[last_row(rows, uuid, n)].uuid@ == uuid,
        last_row(rows, uuid, n) < 0 ==> forall|j: int|
            0 <= j < n ==> (#[trigger] rows[j]).uuid@ != uuid,
    decreases n,
{
    if n > 0 {
        lemma_last_row_found(rows, uuid, n - 1);
    }
}

/// A manifest says of a processor what its row says, where its file is and how
/// long the file is.
pub proof fn manifest_says_what_was_exported(
    item: ManifestItem,
    row: DbRow,
    entry: EntryView,
    updated: Seq<char>,
)
    ensures
        is_item_of(item, row, entry, updated) <==> item.name@ == row.name@ && item.kind@ == row.kind@
            && item.hash@ == row.hash@ && item.path@ == entry.path && item.size
            == entry.binary.len() && item.updated@ == updated,
{
}

/// The contents of all that is fetched are asked for: the batches follow each
/// other without a gap, and each query names every reference of its batch.
#[verifier::rlimit(40)]
pub proof fn every_reference_is_asked_for(
    m: StorageMapping,
    uuids: Seq<Seq<char>>,
    k: int,
    i: int,
)
    requires
        0 <= k,
        1000 * k < uuids.len(),
        0 <= i < batch(uuids, k).len(),
    ensures
        0 < batch(uuids, k).len() <= 1000,
        uuids.take(1000 * k) + batch(uuids, k) == uuids.take(1000 * k + batch(uuids, k).len()),
        batch(uuids, k).len() < 1000 ==> 1000 * k + batch(uuids, k).len() == uuids.len(),
        text::has(blobs_sql(m, batch(uuids, k)), "0x"@ + batch(uuids, k)[i]),
        text::has(blobs_sql(m, batch(uuids, k)), m.field_storage@ + " AS vs FROM dbo."@ + m.table@),
{
    let b = batch(uuids, k);
    assert(uuids.take(1000 * k) + b =~= uuids.take(1000 * k + b.len()));
    let list = text::join(literals(b), ","@);
    let head = "SELECT CONVERT(CHAR(32), _IDRRef, 2) AS uuid, "@;
    let mid = m.field_storage@ + " AS vs FROM dbo."@ + m.table@;
    let tail = " WITH (NOLOCK) WHERE _IDRRef IN ("@;
    let (x, y) = lemma_join_holds(literals(b), ","@, i);
    let item = literals(b)[i];
    assert(list == x + item + y);
    assert(blobs_sql(m, b) =~= (head + mid + tail + x) + item + (y + ")"@));
    text::lemma_has_part(head + mid + tail + x, item, y + ")"@);
    assert(blobs_sql(m, b) =~= head + mid + (tail + list + ")"@));
    text::lemma_has_part(head, mid, tail + list + ")"@);
}

proof fn lemma_join_holds(v: Seq<Seq<char>>, sep: Seq<char>, i: int) -> (r: (
    Seq<char>,
    Seq<char>,
))
    requires
        0 <= i < v.len(),
    ensures
        text::join(v, sep) == r.0 + v[i] + r.1,
    decreases v.len(),
{
    let s = text::join(v, sep);
    if v.len() == 1 {
        assert(s =~= Seq::empty() + v[i] + Seq::empty());
        (Seq::empty(), Seq::empty())
    } else if i == v.len() - 1 {
        let head = text::join(v.drop_last(), sep) + sep;
        assert(s =~= head + v[i] + Seq::empty());
        (head, Seq::empty())
    } else {
        let (a, b) = lemma_join_holds(v.drop_last(), sep, i);
        assert(s =~= a + v[i] + (b + sep + v.last()));
        (a, b + sep + v.last())
    }
}

/// The catalogue is asked for the rows of its table that are neither marked nor
/// folders, with the reference, the name, the hash and, where there is one, the
/// kind of each.
#[verifier::rlimit(40)]
pub proof fn rows_are_asked_for_with_their_hash(m: StorageMapping)
    ensures
        text::has(rows_sql(m), "_IDRRef, 2) AS uuid, RTRIM(_Description) AS name, "@),
        text::has(rows_sql(m), m.field_hash@),
        m.field_kind@.len() > 0 ==> text::has(rows_sql(m), m.field_kind@ + ", 2) AS kind"@),
        text::ends(
            rows_sql(m),
            " FROM dbo."@ + m.table@ + " WITH (NOLOCK) WHERE _Marked = 0x00 AND _Folder = 0x01"@,
        ),
{
    let head = "SELECT CONVERT(CHAR(32), _IDRRef, 2) AS uuid, RTRIM(_Description) AS name, "@;
    let name = "_IDRRef, 2) AS uuid, RTRIM(_Description) AS name, "@;
    reveal_strlit("SELECT CONVERT(CHAR(32), _IDRRef, 2) AS uuid, RTRIM(_Description) AS name, ");
    reveal_strlit("_IDRRef, 2) AS uuid, RTRIM(_Description) AS name, ");
    let hash = sql_signals::hash_expression(m.field_hash@, m.hash_is_binary);
    let kind = if m.field_kind@.len() == 0 {
        ""@
    } else {
        ", CONVERT(CHAR(32), "@ + m.field_kind@ + ", 2) AS kind"@
    };
    let tail = " FROM dbo."@ + m.table@ + " WITH (NOLOCK) WHERE _Marked = 0x00 AND _Folder = 0x01"@;
    let s = rows_sql(m);
    let rest = hash + " AS hash"@ + kind + tail;
    assert(s =~= head + rest);
    let front = head.take(head.len() - name.len());
    assert(head =~= front + name);
    assert(s =~= front + name + rest);
    text::lemma_has_part(front, name, rest);
    let (a, b) = if m.hash_is_binary {
        ("CONVERT(VARCHAR(130), CAST("@, " AS VARBINARY(64)), 2)"@)
    } else {
        ("RTRIM(CONVERT(NVARCHAR(64), "@, "))"@)
    };
    assert(s =~= (head + a) + m.field_hash@ + (b + " AS hash"@ + kind + tail));
    text::lemma_has_part(head + a, m.field_hash@, b + " AS hash"@ + kind + tail);
    if m.field_kind@.len() > 0 {
        let part = m.field_kind@ + ", 2) AS kind"@;
        let before = head + hash + " AS hash"@ + ", CONVERT(CHAR(32), "@;
        assert(s =~= before + part + tail);
        text::lemma_has_part(before, part, tail);
    }
    assert(s.skip(s.len() - tail.len()) =~= tail);
}

/// A name that needs no change is its own file name, and in a name without runs
/// of characters that do every such character, and no other, becomes an
/// underscore.
#[verifier::rlimit(40)]
pub proof fn good_characters_are_kept(name: Seq<char>)
    requires
        0 < name.len() <= 80,
        forall|i: int|
            0 <= i < name.len() - 1 ==> !((unsafe_char(#[trigger] name[i]) || name[i] == '_') && (
            unsafe_char(name[i + 1]) || name[i + 1] == '_')),
        !unsafe_char(name.last()) && name.last() != ' ' && name.last() != '_',
    ensures
        safe_name(name).len() == name.len(),
        forall|i: int|
            0 <= i < name.len() ==> #[trigger] safe_name(name)[i] == if unsafe_char(name[i]) {
                '_'
            } else {
                name[i]
            },
{
    lemma_underscore_is_safe();
    let c = cleaned(name);
    assert(single_underscores(c)) by {
        assert forall|i: int| 0 <= i < c.len() - 1 implies !(#[trigger] c[i] == '_' && c[i + 1]
            == '_') by {
            assert(unsafe_char(name[i]) || name[i] == '_' || c[i] != '_');
        }
    }
    lemma_squeezed(c);
    assert(c.last() == name.last());
    assert(!" ._"@.contains(c.last()));
}

/// The characters that a file system or a command line takes amiss are unsafe;
/// letters, digits, blanks, dashes and underscores are not.
#[verifier::rlimit(40)]
pub proof fn letters_are_safe(c: char)
    ensures
        c == '<' || c == '>' || c == ':' || c == '"' || c == '/' || c == '\\' || c == '|' || c == '?'
            || c == '*' || (c as u32) < 0x20 ==> unsafe_char(c),
        'a' <= c <= 'z' || 'A' <= c <= 'Z' || '0' <= c <= '9' || c == ' ' || c == '-' || c == '_' || c
            as u32 >= 0x80 ==> !unsafe_char(c),
{
    reveal_strlit("<>:\"/\\|?*");
    reveal_strlit(",;()[]{}!@#$%^&+=`~'.");
    let b = BAD_CHARS@;
    assert(b[0] == '<' && b[1] == '>' && b[2] == ':' && b[3] == '"' && b[4] == '/' && b[5] == '\\'
        && b[6] == '|' && b[7] == '?' && b[8] == '*');
}

/// The mapping that the platform gives names the columns of the attributes, with
/// an underscore in front. The hash is the checksum, a text; only a catalogue
/// without one is compared by the version of its data, which is binary.
pub proof fn named_checksum_is_the_hash(
    dto: DiscoveryDto,
    names: Seq<Seq<char>>,
    json_out: Seq<char>,
)
    ensures
        discovered(dto, names, json_out) matches Ok(m) ==> {
            &&& storage_of(dto.fields, "ХранилищеОбработки"@) matches Some(c) && m.field_storage
                == with_underscore(c)
            &&& match storage_of(dto.fields, "КонтрольнаяСумма"@) {
                Some(c) => m.field_hash == with_underscore(c) && !m.hash_is_binary,
                None => storage_of(dto.fields, "ВерсияДанных"@) matches Some(c) && m.field_hash
                    == with_underscore(c) && m.hash_is_binary,
            }
            &&& m.table == with_underscore(dto.table@)
        },
        discovered(dto, names, json_out) is Ok <==> storage_of(
            dto.fields,
            "ХранилищеОбработки"@,
        ) is Some && (storage_of(dto.fields, "КонтрольнаяСумма"@) is Some || storage_of(
            dto.fields,
            "ВерсияДанных"@,
        ) is Some),
{
}

/// A name has one underscore in front at least, and is otherwise the same.
pub proof fn names_begin_with_an_underscore(s: Seq<char>)
    ensures
        with_underscore(s).len() > 0,
        with_underscore(s)[0] == '_',
        with_underscore(s) == s || with_underscore(s) == seq!['_'] + s,
        with_underscore(with_underscore(s)) == with_underscore(s),
{
    reveal_strlit("_");
    let w = with_underscore(s);
    if text::starts(s, "_"@) {
        assert(s.take(1)[0] == s[0]);
    } else {
        assert(w =~= seq!['_'] + s);
        assert(w.take(1) =~= "_"@);
    }
}

/// The column of an attribute in a list is that of a field of its name, and
/// none is missed.
pub proof fn listed_columns_are_of_their_attribute(
    fields: Seq<DiscoveryField>,
    name: Seq<char>,
    i: int,
)
    requires
        0 <= i,
    ensures
        match listed_storage(fields, name, i) {
            Some(c) => c.len() > 0 && exists|k: int|
                i <= k < fields.len() && (#[trigger] fields[k]).name@ == name && fields[k].storage@
                    == c,
            None => forall|k: int|
                i <= k < fields.len() ==> !((#[trigger] fields[k]).name@ == name
                    && fields[k].storage@.len() > 0),
        },
    decreases fields.len() - i,
{
    if i < fields.len() && !(fields[i].name@ == name && fields[i].storage@.len() > 0) {
        listed_columns_are_of_their_attribute(fields, name, i + 1);
    }
}

/// What is removed with the orphans are their files, each at the path that the
/// manifest has for it.
pub proof fn files_of_orphans_are_removed(
    items: Map<Seq<char>, ManifestItem>,
    uuids: Seq<Seq<char>>,
    k: int,
)
    requires
        0 <= k < uuids.len(),
        items.dom().contains(uuids[k]),
        forall|j: int| 0 <= j < k ==> #[trigger] uuids[j] != uuids[k],
    ensures
        removed_paths(items, uuids).contains(items[uuids[k]].path@),
        !left_items(items, uuids).dom().contains(uuids[k]),
    decreases uuids.len(),
{
    let all = removed_paths(items, uuids);
    let path = items[uuids[k]].path@;
    if k == 0 {
        assert(all[0] == path);
        lemma_left_items_gone(items.remove(uuids[0]), uuids.skip(1), uuids[0]);
    } else {
        let rest = items.remove(uuids[0]);
        let tail = uuids.skip(1);
        assert(tail[k - 1] == uuids[k]);
        assert(uuids[0] != uuids[k]);
        assert forall|j: int| 0 <= j < k - 1 implies #[trigger] tail[j] != tail[k - 1] by {
            assert(tail[j] == uuids[j + 1]);
        }
        files_of_orphans_are_removed(rest, tail, k - 1);
        files_of_orphans_are_removed_from(items, uuids, rest, tail, path);
    }
}

proof fn files_of_orphans_are_removed_from(
    items: Map<Seq<char>, ManifestItem>,
    uuids: Seq<Seq<char>>,
    rest: Map<Seq<char>, ManifestItem>,
    tail: Seq<Seq<char>>,
    path: Seq<char>,
)
    requires
        uuids.len() > 0,
        rest == items.remove(uuids[0]),
        tail == uuids.skip(1),
        removed_paths(rest, tail).contains(path),
    ensures
        removed_paths(items, uuids).contains(path),
{
    let t = removed_paths(rest, tail);
    let j = t.index_of(path);
    if items.dom().contains(uuids[0]) {
        assert(removed_paths(items, uuids)[j + 1] == path);
    } else {
        assert(rest =~= items);
    }
}

proof fn lemma_left_items_gone(
    items: Map<Seq<char>, ManifestItem>,
    uuids: Seq<Seq<char>>,
    key: Seq<char>,
)
    requires
        !items.dom().contains(key),
    ensures
        !left_items(items, uuids).dom().contains(key),
    decreases uuids.len(),
{
    if uuids.len() > 0 {
        lemma_left_items_gone(items.remove(uuids[0]), uuids.skip(1), key);
    }
}

/// The platform is told where to write the structure and its log, which base to
/// open and, where it does not use the login of the system, as whom.
#[verifier::rlimit(40)]
pub proof fn platform_is_told_what_to_write(
    c: AppConfig,
    platform: Seq<char>,
    json_out: Seq<char>,
    log_out: Seq<char>,
)
    ensures
        ({
            let args = discovery_args(c, platform, json_out, log_out);
            let server = if c.server_1c@.len() > 0 {
                c.server_1c@
            } else {
                c.server@
            };
            &&& args[0] == platform && args[1] == "ENTERPRISE"@
            &&& args.contains("/S"@ + (server + "\\"@ + c.database@))
            &&& args.contains("/CBatchGetProcessingsStructure;Out="@ + json_out)
            &&& args.contains("/Out"@ + log_out)
            &&& c.authentication.auth_type == AuthType::Os ==> args.contains("/WA+"@)
            &&& c.authentication.auth_type != AuthType::Os && c.authentication.login@.len() > 0
                ==> args.contains("/N"@ + c.authentication.login@)
            &&& c.authentication.auth_type != AuthType::Os && c.authentication.password@.len() > 0
                ==> args.contains("/P"@ + c.authentication.password@)
        }),
{
    let args = discovery_args(c, platform, json_out, log_out);
    let n = args.len() as int;
    assert(args[4] == "/S"@ + (config::or_else(c.server_1c@, c.server@) + "\\"@ + c.database@));
    assert(args[n - 2] == "/CBatchGetProcessingsStructure;Out="@ + json_out);
    assert(args[n - 1] == "/Out"@ + log_out);
    if c.authentication.auth_type == AuthType::Os {
        assert(args[5] == "/WA+"@);
    } else {
        if c.authentication.login@.len() > 0 {
            assert(args[5] == "/N"@ + c.authentication.login@);
        }
        if c.authentication.password@.len() > 0 {
            assert(args[n - 3] == "/P"@ + c.authentication.password@);
        }
    }
}

/// What is unpacked are the bytes of `d` from a place on at which the mark of a
/// container stands and before which it stands nowhere, where `d` is what the
/// compressed part inflates to, or what stands behind the first two bytes.
pub proof fn unpacked_bytes_begin_at_the_first_mark(
    vs: Seq<u8>,
    data: Result<Seq<u8>, Seq<char>>,
    d: Seq<u8>,
) -> (i: int)
    requires
        unpacked(vs, data) is Ok,
        vs[0] == 2 ==> data == (Ok::<Seq<u8>, Seq<char>>(d)),
        vs[0] != 2 ==> d == vs.subrange(2, vs.len() as int),
    ensures
        0 <= i && i + 4 <= d.len(),
        unpacked(vs, data)->Ok_0 == d.subrange(i, d.len() as int),
        d[i] == 0xFF && d[i + 1] == 0xFF && d[i + 2] == 0xFF && d[i + 3] == 0x7F,
        forall|j: int|
            0 <= j < i ==> !(#[trigger] d[j] == 0xFF && d[j + 1] == 0xFF && d[j + 2] == 0xFF && d[j
                + 3] == 0x7F),
{
    other_values_are_refused(vs, data);
    assert(vs.skip(2) =~= vs.subrange(2, vs.len() as int));
    let m = container_mark();
    lemma_find_bytes(d, m, 0);
    let k = find_bytes_from(d, m, 0)->0;
    lemma_mark_at(d, k);
    assert(d.skip(k) =~= d.subrange(k, d.len() as int));
    assert forall|j: int| 0 <= j < k implies !(#[trigger] d[j] == 0xFF && d[j + 1] == 0xFF && d[j
        + 2] == 0xFF && d[j + 3] == 0x7F) by {
        lemma_mark_at(d, j);
        assert(!bytes_at(d, m, j));
    }
    k
}

/// A run of underscores becomes one, and other characters stay.
pub proof fn underscores_are_squeezed(s: Seq<char>, c: char)
    ensures
        squeezed(s.push(c)) == if c == '_' && squeezed(s).len() > 0 && squeezed(s).last() == '_' {
            squeezed(s)
        } else {
            squeezed(s).push(c)
        },
        squeezed(Seq::empty()).len() == 0,
{
    assert(s.push(c).drop_last() =~= s);
}

/// A name of which nothing would be left has a name of its own.
pub proof fn empty_names_are_named(name: Seq<char>)
    requires
        forall|i: int| 0 <= i < name.len() ==> unsafe_char(#[trigger] name[i]),
    ensures
        safe_name(name) == "_unnamed"@,
{
    let c = cleaned(name);
    reveal_strlit(" ._");
    assert(" ._"@[2] == '_');
    assert(" ._"@.contains('_'));
    lemma_squeezed(c);
    let q = squeezed(c);
    assert forall|i: int| 0 <= i < q.len() implies #[trigger] q[i] == '_' by {
        assert(q.contains(q[i]));
        let j = c.index_of(q[i]);
        assert(c[j] == '_');
    }
    lemma_all_trimmed(q, " ._"@);
}

proof fn lemma_all_trimmed(s: Seq<char>, set: Seq<char>)
    requires
        forall|i: int| 0 <= i < s.len() ==> set.contains(#[trigger] s[i]),
    ensures
        text::trim_end_of(s, set).len() == 0,
    decreases s.len(),
{
    if s.len() > 0 {
        let t = s.drop_last();
        assert forall|i: int| 0 <= i < t.len() implies set.contains(#[trigger] t[i]) by {
            assert(t[i] == s[i]);
        }
        lemma_all_trimmed(t, set);
        assert(set.contains(s[s.len() - 1]));
    }
}

/// A kind is named by the enumeration where that knows it, else by itself.
pub proof fn known_kinds_are_named(
    kinds: Map<Seq<char>, Seq<char>>,
    kind: Seq<char>,
    upper: Seq<char>,
)
    ensures
        kinds.dom().contains(upper) ==> kind_in_words(kinds, kind, upper) == kinds[upper],
        !kinds.dom().contains(upper) ==> kind_in_words(kinds, kind, upper) == kind,
{
}

/// Of rows of one reference the last one is dealt with.
pub proof fn last_row_of_a_reference_counts(rows: Seq<DbRow>, uuid: Seq<char>, k: int)
    requires
        0 <= k < rows.len(),
        rows[k].uuid@ == uuid,
        forall|j: int| k < j < rows.len() ==> (#[trigger] rows[j]).uuid@ != uuid,
    ensures
        last_row(rows, uuid, rows.len() as int) == k,
{
    lemma_last_row_is(rows, uuid, rows.len() as int, k);
}

proof fn lemma_last_row_is(rows: Seq<DbRow>, uuid: Seq<char>, n: int, k: int)
    requires
        0 <= k < n <= rows.len(),
        rows[k].uuid@ == uuid,
        forall|j: int| k < j < n ==> (#[trigger] rows[j]).uuid@ != uuid,
    ensures
        last_row(rows, uuid, n) == k,
    decreases n,
{
    if k < n - 1 {
        assert(rows[n - 1].uuid@ != uuid);
        lemma_last_row_is(rows, uuid, n - 1, k);
    }
}

/// Every row is dealt with once: fetched, or counted as unchanged.
pub proof fn rows_are_fetched_or_unchanged(
    items: Map<Seq<char>, ManifestItem>,
    rows: Seq<DbRow>,
    row: DbRow,
)
    ensures
        fetch_list(items, rows.push(row)) == if items.dom().contains(row.uuid@) && text::lowered(
            items[row.uuid@].hash@,
        ) == text::lowered(row.hash@) {
            fetch_list(items, rows)
        } else {
            fetch_list(items, rows).push(row.uuid@)
        },
        fetch_list(items, Seq::empty()).len() == 0,
        has_row(rows.push(row), row.uuid@),
{
    assert(rows.push(row).drop_last() =~= rows);
    assert(rows.push(row).last() == row);
    assert(rows.push(row)[rows.len() as int].uuid@ == row.uuid@);
    if items.dom().contains(row.uuid@) {
        text::capital_letters_are_lowered(items[row.uuid@].hash@, row.hash@);
    }
}

/// A run of the platform is good where it succeeded and wrote its file. Each other
/// one is an error with the log of the platform.
pub proof fn platform_has_to_write_its_file(
    run: CommandResult,
    log: Seq<char>,
    json_exists: bool,
    json_out: Seq<char>,
)
    ensures
        discovery_error(run, log, json_exists, json_out) is None <==> run.success && json_exists,
        !run.success && text::trim(log).len() > 0 ==> discovery_error(
            run,
            log,
            json_exists,
            json_out,
        ) == Some(
            ErrorView::CommandFailed(
                run.return_code as int,
                "Enterprise BatchGetProcessingsStructure упал. Лог 1С: "@ + log + " | stdout: "@
                    + run.stdout@ + " | stderr: "@ + run.stderr@,
            ),
        ),
        run.success && !json_exists ==> discovery_error(run, log, json_exists, json_out)
            matches Some(ErrorView::Config(_)),
{
}

/// The log of the platform is UTF-8 where it can be, else in its code page,
/// without white space around it.
pub proof fn log_of_the_platform_is_decoded(bytes: Seq<u8>)
    ensures
        codec::utf8(bytes) matches Some(s) ==> log_content(bytes) == text::trim(s),
        codec::utf8(bytes) is None ==> log_content(bytes) == text::trim(
            codec::windows_1251(bytes).0,
        ),
{
}

/// An attribute that the platform did not name is told, with those that it did.
pub proof fn missing_attributes_are_told(
    dto: DiscoveryDto,
    names: Seq<Seq<char>>,
    json_out: Seq<char>,
)
    ensures
        storage_of(dto.fields, "ХранилищеОбработки"@) is None ==> discovered(dto, names, json_out)
            == (Err::<MappingView, ErrorView>(
            ErrorView::Config(
                "в discovery-JSON нет реквизита "@ + "ХранилищеОбработки"@ + ". Есть: ["@
                    + text::join(names, ", "@) + "]. Файл оставлен: "@ + json_out,
            ),
        )),
        storage_of(dto.fields, "ХранилищеОбработки"@) is Some && storage_of(
            dto.fields,
            "КонтрольнаяСумма"@,
        ) is None && storage_of(dto.fields, "ВерсияДанных"@) is None ==> discovered(
            dto,
            names,
            json_out,
        ) == (Err::<MappingView, ErrorView>(
            ErrorView::Config(
                "в discovery-JSON нет реквизита "@ + "КонтрольнаяСумма или ВерсияДанных"@
                    + ". Есть: ["@ + text::join(names, ", "@) + "]. Файл оставлен: "@ + json_out,
            ),
        )),
{
}

/// A value that cannot be unpacked says why.
pub proof fn unpacking_says_what_failed(vs: Seq<u8>, e: Seq<char>)
    ensures
        vs.len() < 2 ==> unpacked(vs, Err(e)) == (Err::<Seq<u8>, ErrorView>(
            ErrorView::ValueStorage("слишком короткий блок: "@ + text::dec(vs.len()) + " байт"@),
        )),
        vs.len() > 18 && vs[0] == 2 && vs[1] == 1 ==> unpacked(vs, Err(e)) == (Err::<
            Seq<u8>,
            ErrorView,
        >(ErrorView::ValueStorage("DEFLATE упала: "@ + e))),
        2 <= vs.len() <= 18 && vs[0] == 2 && vs[1] == 1 ==> unpacked(vs, Err(e)) == (Err::<
            Seq<u8>,
            ErrorView,
        >(
            ErrorView::ValueStorage(
                "сжатый ValueStorage короче заголовка ("@ + text::dec(vs.len()) + " ≤ 18)"@,
            ),
        )),
{
    if is_empty_storage(vs) {
        assert(vs.take(7)[0] == vs[0]);
    }
}

/// A run fetches exactly the processors that are new or have changed: the
/// reference of a row is among those to fetch where the manifest has no item of
/// it or one with another hash, the case of letters aside.
pub proof fn run_fetches_what_changed(
    manifest: Manifest,
    rows: Vec<DbRow>,
    run: ProcessingsRun,
    uuid: Seq<char>,
)
    requires
        call_ensures(ProcessingsRun::start, (manifest, rows), run),
    ensures
        text::views(run.to_fetch@).contains(uuid) <==> exists|i: int|
            0 <= i < rows@.len() && (#[trigger] rows@[i]).uuid@ == uuid && (
            !manifest.items@.dom().contains(uuid) || text::lowered(manifest.items@[uuid].hash@)
                != text::lowered(rows@[i].hash@)),
{
    changed_rows_are_fetched(manifest.items@, rows@, uuid);
}

/// What a stored value unpacks to are the bytes from the first mark of a container
/// on: of what the part behind its 18 bytes inflates to, or of what stands behind
/// its first two bytes.
pub proof fn container_is_unpacked_from_its_first_mark(
    vs: &[u8],
    r: Result<Vec<u8>, ExportError>,
    d: Seq<u8>,
) -> (i: int)
    requires
        call_ensures(value_storage_to_binary, (vs,), r),
        r is Ok,
        vs@[0] == 2 ==> codec::inflate(vs@.subrange(18, vs@.len() as int)) == (Ok::<
            Seq<u8>,
            Seq<char>,
        >(d)),
        vs@[0] != 2 ==> d == vs@.subrange(2, vs@.len() as int),
    ensures
        0 <= i && i + 4 <= d.len(),
        r->Ok_0@ == d.subrange(i, d.len() as int),
        d[i] == 0xFF && d[i + 1] == 0xFF && d[i + 2] == 0xFF && d[i + 3] == 0x7F,
        forall|j: int|
            0 <= j < i ==> !(#[trigger] d[j] == 0xFF && d[j + 1] == 0xFF && d[j + 2] == 0xFF && d[j
                + 3] == 0x7F),
{
    other_values_are_refused(vs@, codec::inflate(vs@.skip(18)));
    if vs@[0] == 2 {
        assert(vs@.skip(18) =~= vs@.subrange(18, vs@.len() as int));
    }
    unpacked_bytes_begin_at_the_first_mark(vs@, codec::inflate(vs@.skip(18)), d)
}

/// A stored value with a container is unpacked: one that is compressed and
/// inflates to something with a mark, and a plain one with a mark.
pub proof fn stored_containers_are_unpacked(
    vs: &[u8],
    r: Result<Vec<u8>, ExportError>,
    i: int,
)
    requires
        call_ensures(value_storage_to_binary, (vs,), r),
        vs@.len() >= 2,
        has_mark_at(vs@.skip(2), i) && vs@[0] == 1 && vs@[1] == 1 || (vs@.len() > 18 && vs@[0] == 2
            && vs@[1] == 1 && codec::inflate(vs@.skip(18)) is Ok && has_mark_at(
            codec::inflate(vs@.skip(18))->Ok_0,
            i,
        )),
    ensures
        r is Ok,
{
    let data = codec::inflate(vs@.skip(18));
    let d = if vs@[0] == 2 {
        data->Ok_0
    } else {
        vs@.skip(2)
    };
    assert(!is_empty_storage(vs@)) by {
        if is_empty_storage(vs@) {
            assert(vs@.take(7)[0] == vs@[0]);
        }
    }
    lemma_find_bytes(d, container_mark(), 0);
    lemma_mark_at(d, i);
}

/// Bytes are found at the first place at which they stand.
pub proof fn first_place_of_bytes_is_found(haystack: &[u8], needle: &[u8], r: Option<usize>)
    requires
        call_ensures(find_subseq, (haystack, needle), r),
        needle@.len() > 0,
    ensures
        match r {
            Some(k) => {
                &&& k + needle@.len() <= haystack@.len()
                &&& haystack@.subrange(k as int, k + needle@.len()) == needle@
                &&& forall|j: int|
                    0 <= j < k ==> #[trigger] haystack@.subrange(j, j + needle@.len()) != needle@
            },
            None => forall|j: int|
                0 <= j && j + needle@.len() <= haystack@.len() ==> #[trigger] haystack@.subrange(
                    j,
                    j + needle@.len(),
                ) != needle@,
        },
{
    lemma_find_bytes(haystack@, needle@, 0);
    match r {
        Some(k) => {
            assert(bytes_at(haystack@, needle@, k as int));
            assert forall|j: int| 0 <= j < k implies #[trigger] haystack@.subrange(
                j,
                j + needle@.len(),
            ) != needle@ by {
                assert(!bytes_at(haystack@, needle@, j));
            }
        },
        None => {
            assert forall|j: int| 0 <= j && j + needle@.len() <= haystack@.len() implies
                #[trigger] haystack@.subrange(j, j + needle@.len()) != needle@ by {
                assert(!bytes_at(haystack@, needle@, j));
            }
        },
    }
}

/// What is exported of a row is what was stored of it: the container, under the
/// safe name of the row, and where the hash is a checksum, only with that
/// checksum.
pub proof fn exported_file_is_what_was_stored(
    row: &DbRow,
    vs: &[u8],
    hash_is_binary: bool,
    kinds: &StrMap<String>,
    r: Result<Entry, ExportError>,
)
    requires
        call_ensures(process_entry, (row, vs, hash_is_binary, kinds), r),
        r is Ok,
    ensures
        unpacked(vs@, codec::inflate(vs@.skip(18))) == (Ok::<Seq<u8>, ErrorView>(
            r->Ok_0.binary@,
        )),
        !hash_is_binary ==> text::lowered(text::hex(codec::md5_digest(r->Ok_0.binary@), 'A'))
            == text::lowered(row.hash@),
        r->Ok_0.path@ == "processings/"@ + r->Ok_0.file_name@,
        r->Ok_0.file_name@ == safe_name(row.name@) + ".epf"@ || r->Ok_0.file_name@ == safe_name(
            row.name@,
        ) + ".erf"@,
{
    let map = string_map(kinds@);
    contents_match_their_checksum(*row, vs@, hash_is_binary, map);
    assert(prepared(*row, vs@, hash_is_binary, map) == (Ok::<EntryView, ErrorView>(r->Ok_0@)));
}

/// The column of an attribute is the one that the platform names for it, where
/// that is not empty.
pub proof fn named_columns_are_of_their_attribute(
    m: StrMap<String>,
    l: Vec<DiscoveryField>,
    name: Seq<char>,
)
    ensures
        m@.dom().contains(name) && m@[name]@.len() > 0 ==> storage_of(
            DiscoveryFields::ByName(m),
            name,
        ) == Some(m@[name]@),
        !m@.dom().contains(name) || m@[name]@.len() == 0 ==> storage_of(
            DiscoveryFields::ByName(m),
            name,
        ) is None,
        storage_of(DiscoveryFields::List(l), name) matches Some(c) ==> c.len() > 0 && exists|
            k: int,
        |
            0 <= k < l@.len() && (#[trigger] l@[k]).name@ == name && l@[k].storage@ == c,
        storage_of(DiscoveryFields::List(l), name) is None ==> forall|k: int|
            0 <= k < l@.len() ==> !((#[trigger] l@[k]).name@ == name && l@[k].storage@.len() > 0),
{
    listed_columns_are_of_their_attribute(l@, name, 0);
}

/// A value with an unknown header is shown by its first two bytes, its length and
/// its first 32 bytes, as digits and as characters, with a dot for each that is
/// not printable.
#[verifier::rlimit(40)]
pub proof fn unknown_headers_are_shown(vs: Seq<u8>, i: int)
    requires
        vs.len() >= 2,
    ensures
        ({
            let head = if vs.len() <= 32 {
                vs
            } else {
                vs.take(32)
            };
            unknown_header(vs) == "неизвестный заголовок ValueStorage: 0x"@ + text::hex_byte(
                vs[0],
                'A',
            ) + " 0x"@ + text::hex_byte(vs[1], 'A') + " (размер="@ + text::dec(vs.len())
                + " байт)\nпервые 32 байта hex : "@ + hex_list(head)
                + "\nпервые 32 байта ASCII: "@ + printable(head)
        }),
        printable(vs).len() == vs.len(),
        0 <= i < vs.len() && 0x20 <= vs[i] < 0x7F ==> printable(vs)[i] == vs[i] as char,
        0 <= i < vs.len() && !(0x20 <= vs[i] < 0x7F) ==> printable(vs)[i] == '.',
        vs[0] != 1 && vs[0] != 2 && vs[0] != 0x53 ==> unpacked(vs, Err(Seq::empty())) == (Err::<
            Seq<u8>,
            ErrorView,
        >(ErrorView::ValueStorage(unknown_header(vs)))),
{
    if is_empty_storage(vs) {
        assert(vs.take(7)[0] == vs[0]);
    }
}

} // verus!
