//! Schemas of data composition, as they stand in the data of a template.

use vstd::prelude::*;

use crate::codec;
use crate::sql_discovery::{self, inflated_or_plain, without_bom};
use crate::text;

verus! {

/// How the opening tag of a schema begins, in lower case.
pub const DCS_OPEN: &'static str = "<datacompositionschema";

/// How the closing tag of a schema begins, in lower case.
pub const DCS_CLOSE: &'static str = "</datacompositionschema";

/// How many bytes from the beginning of a file its document has to begin.
pub const PROLOGUE_WINDOW: usize = 1024;

/// How many bytes from the beginning of an entry its document has to begin,
/// where the entry is no text.
pub const ENTRY_WINDOW: usize = 512;

/// The namespaces of a schema, in their order.
pub const DCS_NAMESPACES: [&'static str; 8] = [
    "xmlns=\"http://v8.1c.ru/8.1/data-composition-system/schema\"",
    "xmlns:dcscom=\"http://v8.1c.ru/8.1/data-composition-system/common\"",
    "xmlns:dcscor=\"http://v8.1c.ru/8.1/data-composition-system/core\"",
    "xmlns:dcsset=\"http://v8.1c.ru/8.1/data-composition-system/settings\"",
    "xmlns:v8=\"http://v8.1c.ru/8.1/data/core\"",
    "xmlns:v8ui=\"http://v8.1c.ru/8.1/data/ui\"",
    "xmlns:xs=\"http://www.w3.org/2001/XMLSchema\"",
    "xmlns:xsi=\"http://www.w3.org/2001/XMLSchema-instance\"",
];

// Searching without regard to case.

/// `p` stands in `s` at position `i`, in letters of any case.
pub open spec fn occurs_ci(s: Seq<char>, p: Seq<char>, i: int) -> bool {
    0 <= i && i + p.len() <= s.len() && text::eq_ignore_case(s.subrange(i, i + p.len()), p)
}

/// The first position of `p` in `s` from `i` on, in letters of any case.
pub open spec fn find_ci_from(s: Seq<char>, p: Seq<char>, i: int) -> Option<int>
    decreases s.len() - i,
{
    if i < 0 || i + p.len() > s.len() {
        None
    } else if occurs_ci(s, p, i) {
        Some(i)
    } else {
        find_ci_from(s, p, i + 1)
    }
}

/// What a search without regard to case finds.
pub proof fn lemma_find_ci(s: Seq<char>, p: Seq<char>, i: int)
    requires
        0 <= i,
    ensures
        match find_ci_from(s, p, i) {
            Some(k) => i <= k && occurs_ci(s, p, k) && forall|j: int|
                i <= j < k ==> !occurs_ci(s, p, j),
            None => forall|j: int| i <= j ==> !occurs_ci(s, p, j),
        },
    decreases s.len() - i,
{
    if i + p.len() <= s.len() && !occurs_ci(s, p, i) {
        lemma_find_ci(s, p, i + 1);
    }
}

proof fn lemma_found_ci(s: Seq<char>, p: Seq<char>, i: int, k: int)
    requires
        0 <= i <= k,
        occurs_ci(s, p, k),
        forall|j: int| i <= j < k ==> !occurs_ci(s, p, j),
    ensures
        find_ci_from(s, p, i) == Some(k),
{
    lemma_find_ci(s, p, i);
}

/// The lengths of the tags, and how they differ.
pub proof fn lemma_tags()
    ensures
        DCS_OPEN@.len() == 22,
        DCS_CLOSE@.len() == 23,
        DCS_OPEN@[1] == 'd',
        DCS_CLOSE@[1] == '/',
{
    reveal_strlit("<datacompositionschema");
    reveal_strlit("</datacompositionschema");
}

/// The first position of `p` from `from` on, in letters of any case.
pub fn find_ci(s: &[char], p: &[char], from: usize) -> (r: Option<usize>)
    requires
        p@.len() > 0,
    ensures
        match r {
            Some(k) => find_ci_from(s@, p@, from as int) == Some(k as int) && from <= k && k
                + p@.len() <= s@.len(),
            None => find_ci_from(s@, p@, from as int) is None,
        },
{
    let n: usize = s.len();
    let m: usize = p.len();
    if m > n {
        return None;
    }
    let mut i: usize = from;
    while i <= n - m
        invariant
            n == s@.len(),
            m == p@.len(),
            0 < m <= n,
            from <= i,
            find_ci_from(s@, p@, from as int) == find_ci_from(s@, p@, i as int),
        decreases n - i,
    {
        let mut k: usize = 0;
        while k < m && text::to_lower_ascii(s[i + k]) == text::to_lower_ascii(p[k])
            invariant
                n == s@.len(),
                m == p@.len(),
                k <= m,
                i + m <= n,
                forall|j: int|
                    0 <= j < k ==> text::lower_ascii(#[trigger] s@.subrange(i as int, i + m)[j])
                        == text::lower_ascii(p@[j]),
            decreases m - k,
        {
            assert(s@.subrange(i as int, i + m)[k as int] == s@[i + k]);
            k = k + 1;
        }
        if k == m {
            assert(occurs_ci(s@, p@, i as int));
            return Some(i);
        }
        assert(s@.subrange(i as int, i + m)[k as int] == s@[i + k]);
        assert(!occurs_ci(s@, p@, i as int));
        i = i + 1;
    }
    None
}

// Tags.

/// A character that can follow the name of a tag.
pub open spec fn is_boundary(c: char) -> bool {
    c == ' ' || c == '\t' || c == '\r' || c == '\n' || c == '>' || c == '/'
}

/// The name of a tag ends before position `i`.
pub open spec fn name_ends(s: Seq<char>, i: int) -> bool {
    0 <= i < s.len() && is_boundary(s[i])
}

/// ASCII white space.
pub const ASCII_SPACE: &'static str = " \t\n\x0C\r";

/// The tag that ends at position `gt` is closed by a slash.
pub open spec fn is_self_closing(s: Seq<char>, gt: int) -> bool {
    let head = text::trim_end_of(s.take(gt), ASCII_SPACE@);
    head.len() > 0 && head.last() == '/'
}

/// The first opening tag of a schema from `from` on: where it begins, where
/// what follows it begins, and whether it is closed by a slash. None where
/// there is no such tag or it does not end.
pub open spec fn open_tag(s: Seq<char>, from: int) -> Option<(int, int, bool)>
    decreases s.len() - from,
{
    match find_ci_from(s, DCS_OPEN@, from) {
        None => None,
        Some(start) => {
            let after = start + DCS_OPEN@.len();
            if !name_ends(s, after) {
                proof {
                    lemma_tags();
                    if 0 <= from {
                        lemma_find_ci(s, DCS_OPEN@, from);
                    }
                }
                open_tag(s, after)
            } else {
                let gt = text::next_char(s, '>', after);
                if gt < s.len() {
                    Some((start, gt + 1, is_self_closing(s, gt)))
                } else {
                    None
                }
            }
        },
    }
}

/// Where the next opening tag of a schema that is not closed by a slash
/// begins. None where there is no such tag or it does not end.
pub open spec fn next_open(s: Seq<char>, from: int) -> Option<int>
    decreases s.len() - from,
{
    match find_ci_from(s, DCS_OPEN@, from) {
        None => None,
        Some(start) => {
            let after = start + DCS_OPEN@.len();
            proof {
                lemma_tags();
                if 0 <= from {
                    lemma_find_ci(s, DCS_OPEN@, from);
                    lemma_next_char(s, '>', after);
                }
            }
            if !name_ends(s, after) {
                next_open(s, after)
            } else {
                let gt = text::next_char(s, '>', after);
                if gt >= s.len() {
                    None
                } else if is_self_closing(s, gt) {
                    next_open(s, gt + 1)
                } else {
                    Some(start)
                }
            }
        },
    }
}

/// Where a search for a character ends.
pub proof fn lemma_next_char(s: Seq<char>, c: char, i: int)
    requires
        0 <= i,
    ensures
        i <= s.len() ==> i <= text::next_char(s, c, i) <= s.len(),
        i > s.len() ==> text::next_char(s, c, i) == s.len(),
        text::next_char(s, c, i) < s.len() ==> s[text::next_char(s, c, i)] == c,
    decreases s.len() - i,
{
    if i < s.len() && s[i] != c {
        lemma_next_char(s, c, i + 1);
    }
}

/// Where the closing tag of a schema begins, where `depth` schemas are open at
/// `pos`; schemas inside are counted.
pub open spec fn closing_tag(s: Seq<char>, pos: int, depth: nat) -> Option<int>
    decreases s.len() - pos,
{
    if pos < 0 || pos >= s.len() {
        None
    } else {
        proof {
            lemma_tags();
            lemma_next_open(s, pos);
            lemma_find_ci(s, DCS_CLOSE@, pos);
        }
        match (next_open(s, pos), find_ci_from(s, DCS_CLOSE@, pos)) {
            (Some(o), close) => if close is None || o < close->0 {
                closing_tag(s, o + DCS_OPEN@.len(), depth + 1)
            } else if depth <= 1 {
                close
            } else {
                closing_tag(s, close->0 + DCS_CLOSE@.len(), (depth - 1) as nat)
            },
            (None, Some(c)) => if depth <= 1 {
                Some(c)
            } else {
                closing_tag(s, c + DCS_CLOSE@.len(), (depth - 1) as nat)
            },
            (None, None) => None,
        }
    }
}

/// Where a search for an opening tag ends.
pub proof fn lemma_next_open(s: Seq<char>, from: int)
    requires
        0 <= from,
    ensures
        next_open(s, from) matches Some(o) ==> from <= o && occurs_ci(s, DCS_OPEN@, o),
    decreases s.len() - from,
{
    lemma_tags();
    lemma_find_ci(s, DCS_OPEN@, from);
    if let Some(start) = find_ci_from(s, DCS_OPEN@, from) {
        let after = start + DCS_OPEN@.len();
        lemma_next_char(s, '>', after);
        if !name_ends(s, after) {
            lemma_next_open(s, after);
        } else {
            let gt = text::next_char(s, '>', after);
            if gt < s.len() && is_self_closing(s, gt) {
                lemma_next_open(s, gt + 1);
            }
        }
    }
}

/// How a document of a schema begins, up to the end of the namespaces.
pub open spec fn document_head() -> Seq<char> {
    "<?xml version=\"1.0\" encoding=\"UTF-8\"?>\r\n"@ + "<DataCompositionSchema "@ + text::join(
        namespaces(),
        " "@,
    )
}

/// The namespaces of a schema.
pub open spec fn namespaces() -> Seq<Seq<char>> {
    DCS_NAMESPACES@.map_values(|s: &'static str| s@)
}

/// The document of the first schema in a text: its namespaces are replaced,
/// what stands between its tags is kept.
pub open spec fn schema_document(s: Seq<char>) -> Option<Seq<char>> {
    match open_tag(s, 0) {
        None => None,
        Some((_, open_end, self_closing)) => if self_closing {
            Some(document_head() + "/>"@)
        } else {
            match closing_tag(s, open_end, 1) {
                None => None,
                Some(end) => Some(
                    document_head() + ">"@ + s.subrange(open_end, end)
                        + "</DataCompositionSchema>"@,
                ),
            }
        },
    }
}

/// Whether the name of a tag ends before a position.
fn is_name_boundary(s: &[char], i: usize) -> (r: bool)
    ensures
        r == name_ends(s@, i as int),
{
    if i >= s.len() {
        return false;
    }
    let c = s[i];
    c == ' ' || c == '\t' || c == '\r' || c == '\n' || c == '>' || c == '/'
}

/// Whether the tag that ends at a position is closed by a slash.
fn self_closing(s: &[char], gt: usize) -> (r: bool)
    requires
        gt <= s@.len(),
    ensures
        r == is_self_closing(s@, gt as int),
{
    proof {
        reveal_strlit(" \t\n\x0C\r");
        assert(ASCII_SPACE@ =~= seq![' ', '\t', '\n', '\x0C', '\r']);
        assert(ASCII_SPACE@[0] == ' ' && ASCII_SPACE@[1] == '\t' && ASCII_SPACE@[2] == '\n'
            && ASCII_SPACE@[3] == '\x0C' && ASCII_SPACE@[4] == '\r');
    }
    let mut i: usize = gt;
    while i > 0 && (s[i - 1] == ' ' || s[i - 1] == '\t' || s[i - 1] == '\n' || s[i - 1] == '\x0C'
        || s[i - 1] == '\r')
        invariant
            i <= gt <= s@.len(),
            ASCII_SPACE@ =~= seq![' ', '\t', '\n', '\x0C', '\r'],
            ASCII_SPACE@.contains(' ') && ASCII_SPACE@.contains('\t') && ASCII_SPACE@.contains('\n')
                && ASCII_SPACE@.contains('\x0C') && ASCII_SPACE@.contains('\r'),
            text::trim_end_of(s@.take(gt as int), ASCII_SPACE@) == text::trim_end_of(
                s@.take(i as int),
                ASCII_SPACE@,
            ),
        decreases i,
    {
        assert(s@.take(i as int).drop_last() =~= s@.take(i - 1));
        assert(s@.take(i as int).last() == s@[i - 1]);
        i = i - 1;
    }
    proof {
        if i > 0 {
            assert(s@.take(i as int).last() == s@[i - 1]);
        }
    }
    i > 0 && s[i - 1] == '/'
}

/// The first opening tag of a schema: where it begins, where what follows it
/// begins, and whether it is closed by a slash.
fn find_open_tag(s: &[char]) -> (r: Option<(usize, usize, bool)>)
    ensures
        match r {
            Some((start, end, closed)) => open_tag(s@, 0) == Some(
                (start as int, end as int, closed),
            ) && end <= s@.len(),
            None => open_tag(s@, 0) is None,
        },
{
    let open = text::chars_of(DCS_OPEN);
    proof {
        lemma_tags();
    }
    let n: usize = s.len();
    let mut from: usize = 0;
    loop
        invariant
            n == s@.len(),
            open@ == DCS_OPEN@,
            open@.len() == 22,
            from <= s@.len(),
            open_tag(s@, 0) == open_tag(s@, from as int),
        decreases s@.len() - from,
    {
        match find_ci(s, &open, from) {
            None => {
                return None;
            },
            Some(start) => {
                let after = start + open.len();
                if !is_name_boundary(s, after) {
                    from = after;
                } else {
                    let gt = text::next_char_pos(s, '>', after);
                    if gt >= n {
                        return None;
                    }
                    return Some((start, gt + 1, self_closing(s, gt)));
                }
            },
        }
    }
}

/// Where the next opening tag of a schema that is not closed by a slash
/// begins.
fn next_open_start(s: &[char], from: usize) -> (r: Option<usize>)
    requires
        from <= s@.len(),
    ensures
        match r {
            Some(o) => next_open(s@, from as int) == Some(o as int) && from <= o && o + 22
                <= s@.len(),
            None => next_open(s@, from as int) is None,
        },
{
    let open = text::chars_of(DCS_OPEN);
    proof {
        lemma_tags();
    }
    let n: usize = s.len();
    let mut pos: usize = from;
    loop
        invariant
            n == s@.len(),
            open@ == DCS_OPEN@,
            open@.len() == 22,
            from <= pos <= s@.len(),
            next_open(s@, from as int) == next_open(s@, pos as int),
        decreases s@.len() - pos,
    {
        match find_ci(s, &open, pos) {
            None => {
                return None;
            },
            Some(start) => {
                let after = start + open.len();
                if !is_name_boundary(s, after) {
                    pos = after;
                } else {
                    let gt = text::next_char_pos(s, '>', after);
                    if gt >= n {
                        return None;
                    }
                    if !self_closing(s, gt) {
                        return Some(start);
                    }
                    pos = gt + 1;
                }
            },
        }
    }
}

/// Where the closing tag of a schema begins, of one that is open at `from`.
fn find_matching_close(s: &[char], from: usize) -> (r: Option<usize>)
    requires
        from <= s@.len(),
    ensures
        match r {
            Some(c) => closing_tag(s@, from as int, 1) == Some(c as int) && from <= c <= s@.len(),
            None => closing_tag(s@, from as int, 1) is None,
        },
{
    let close = text::chars_of(DCS_CLOSE);
    proof {
        lemma_tags();
    }
    let n: usize = s.len();
    let mut depth: usize = 1;
    let mut pos: usize = from;
    while pos < n
        invariant
            n == s@.len(),
            close@ == DCS_CLOSE@,
            close@.len() == 23,
            DCS_OPEN@.len() == 22,
            from <= pos <= n,
            1 <= depth <= 1 + pos - from,
            closing_tag(s@, from as int, 1) == closing_tag(s@, pos as int, depth as nat),
        decreases n - pos,
    {
        let o = next_open_start(s, pos);
        let c = find_ci(s, &close, pos);
        match c {
            Some(c) => {
                let deeper = match o {
                    Some(o) => o < c,
                    None => false,
                };
                if deeper {
                    if let Some(o) = o {
                        depth = depth + 1;
                        pos = o + 22;
                    }
                } else {
                    if depth == 1 {
                        return Some(c);
                    }
                    depth = depth - 1;
                    pos = c + 23;
                }
            },
            None => match o {
                Some(o) => {
                    depth = depth + 1;
                    pos = o + 22;
                },
                None => {
                    return None;
                },
            },
        }
    }
    None
}

/// The namespaces of a schema, with spaces between them.
fn joined_namespaces() -> (r: String)
    ensures
        r@ == text::join(namespaces(), " "@),
{
    let ghost all = namespaces();
    let mut list: Vec<String> = Vec::new();
    for i in 0..DCS_NAMESPACES.len()
        invariant
            all == namespaces(),
            text::views(list@) == all.take(i as int),
    {
        let ghost before = list@;
        let one = DCS_NAMESPACES[i].to_owned();
        list.push(one);
        assert(text::views(list@) =~= text::views(before).push(one@));
        assert(all.take(i + 1) =~= all.take(i as int).push(all[i as int]));
    }
    assert(all.take(DCS_NAMESPACES@.len() as int) =~= all);
    text::joined(&list, " ")
}

/// The document of the first schema in a text.
pub fn dcs_document_from_xml(s: &str) -> (r: Option<String>)
    ensures
        text::opt_view(r) == schema_document(s@),
{
    let v = text::chars_of(s);
    match find_open_tag(&v) {
        None => None,
        Some((_, open_end, closed)) => {
            let mut doc = "<?xml version=\"1.0\" encoding=\"UTF-8\"?>\r\n".to_owned();
            doc.append("<DataCompositionSchema ");
            let names = joined_namespaces();
            doc.append(&names);
            if closed {
                doc.append("/>");
                return Some(doc);
            }
            match find_matching_close(&v, open_end) {
                None => None,
                Some(end) => {
                    doc.append(">");
                    let body = text::string_of(&v[open_end..end]);
                    doc.append(&body);
                    doc.append("</DataCompositionSchema>");
                    Some(doc)
                },
            }
        },
    }
}

// Files.

/// Bytes as characters, one for one.
pub open spec fn latin1(bytes: Seq<u8>) -> Seq<char> {
    bytes.map_values(|b: u8| b as char)
}

/// The first bytes, `n` at most.
pub open spec fn head(bytes: Seq<u8>, n: int) -> Seq<u8> {
    if bytes.len() <= n {
        bytes
    } else {
        bytes.take(n)
    }
}

/// Where the document of a file begins: at the declaration of XML, else at the
/// root of a file of schemas, else at a schema, in the first bytes.
pub open spec fn document_start(bin: Seq<u8>) -> Option<int> {
    let window = latin1(head(bin, PROLOGUE_WINDOW as int));
    match find_ci_from(window, "<?xml"@, 0) {
        Some(k) => Some(k),
        None => match find_ci_from(window, "<schemafile"@, 0) {
            Some(k) => Some(k),
            None => find_ci_from(window, DCS_OPEN@, 0),
        },
    }
}

/// The text of a file from the beginning of its document on.
pub open spec fn prologue_text(bin: Seq<u8>) -> Option<Seq<char>> {
    match document_start(bin) {
        Some(k) => codec::utf8(bin.skip(k)),
        None => None,
    }
}

/// The text of an entry: all of it, or all from the declaration of XML on.
pub open spec fn entry_text(data: Seq<u8>) -> Option<Seq<char>> {
    let bytes = without_bom(data);
    match codec::utf8(bytes) {
        Some(t) => Some(t),
        None => match find_ci_from(latin1(head(bytes, ENTRY_WINDOW as int)), "<?xml"@, 0) {
            Some(k) => codec::utf8(bytes.skip(k)),
            None => None,
        },
    }
}

/// The texts of the entries that have one.
pub open spec fn entry_texts(entries: Seq<Seq<u8>>) -> Seq<Seq<char>>
    decreases entries.len(),
{
    if entries.len() == 0 {
        Seq::empty()
    } else {
        let head = entry_texts(entries.drop_last());
        let data = inflated_or_plain(entries.last(), codec::inflate(entries.last()));
        match entry_text(data) {
            Some(t) => head.push(t),
            None => head,
        }
    }
}

/// The first text from `i` on that holds a schema.
pub open spec fn first_with_schema(texts: Seq<Seq<char>>, i: int) -> Option<Seq<char>>
    decreases texts.len() - i,
{
    if i < 0 || i >= texts.len() {
        None
    } else if find_ci_from(texts[i], DCS_OPEN@, 0) is Some {
        Some(texts[i])
    } else {
        first_with_schema(texts, i + 1)
    }
}

/// The text of a container: the only one, or the first that holds a schema.
pub open spec fn container_text(texts: Seq<Seq<char>>) -> Option<Seq<char>> {
    if texts.len() == 1 {
        Some(texts[0])
    } else {
        first_with_schema(texts, 0)
    }
}

/// The document that a text gives, if there is a text.
pub open spec fn document_in(s: Option<Seq<char>>) -> Option<Seq<char>> {
    match s {
        Some(t) => schema_document(t),
        None => None,
    }
}

/// The document of a file: that of its entries, where it is a container and
/// they give one, else that of the text in it.
pub open spec fn extracted(bin: Seq<u8>, texts: Option<Seq<Seq<char>>>) -> Option<Seq<char>> {
    let inside = match texts {
        Some(v) => document_in(container_text(v)),
        None => None,
    };
    match inside {
        Some(d) => Some(d),
        None => document_in(prologue_text(bin)),
    }
}

/// The views of lists of bytes.
pub open spec fn byte_views(v: Seq<Vec<u8>>) -> Seq<Seq<u8>> {
    v.map_values(|b: Vec<u8>| b@)
}

/// The first bytes, `n` at most, as characters.
fn window_of(bytes: &[u8], n: usize) -> (r: Vec<char>)
    ensures
        r@ == latin1(head(bytes@, n as int)),
{
    let m: usize = if bytes.len() <= n {
        bytes.len()
    } else {
        n
    };
    let ghost all = latin1(head(bytes@, n as int));
    let mut out: Vec<char> = Vec::new();
    for i in 0..m
        invariant
            m <= bytes@.len(),
            all == latin1(head(bytes@, n as int)),
            all.len() == m,
            forall|k: int| 0 <= k < m ==> all[k] == (#[trigger] bytes@[k]) as char,
            out@ == all.take(i as int),
    {
        out.push(bytes[i] as char);
        assert(all.take(i + 1) =~= all.take(i as int).push(bytes@[i as int] as char));
    }
    assert(all.take(m as int) =~= all);
    out
}

/// The first position of a text in characters, in letters of any case.
fn find_in(window: &Vec<char>, p: &str) -> (r: Option<usize>)
    requires
        p@.len() > 0,
    ensures
        match r {
            Some(k) => find_ci_from(window@, p@, 0) == Some(k as int) && k <= window@.len(),
            None => find_ci_from(window@, p@, 0) is None,
        },
{
    let needle = text::chars_of(p);
    find_ci(window, &needle, 0)
}

/// Where the document of a file begins.
pub fn xml_start_offset(bin: &[u8]) -> (r: Option<usize>)
    ensures
        match r {
            Some(k) => document_start(bin@) == Some(k as int) && k <= bin@.len(),
            None => document_start(bin@) is None,
        },
{
    proof {
        lemma_tags();
        reveal_strlit("<?xml");
        reveal_strlit("<schemafile");
    }
    let window = window_of(bin, PROLOGUE_WINDOW);
    if let Some(k) = find_in(&window, "<?xml") {
        return Some(k);
    }
    if let Some(k) = find_in(&window, "<schemafile") {
        return Some(k);
    }
    find_in(&window, DCS_OPEN)
}

/// The text of a file from the beginning of its document on.
pub fn dcs_text_from_prologue(bin: &[u8]) -> (r: Option<String>)
    ensures
        text::opt_view(r) == prologue_text(bin@),
{
    match xml_start_offset(bin) {
        Some(k) => {
            let tail = &bin[k..bin.len()];
            assert(tail@ =~= bin@.skip(k as int));
            codec::from_utf8(tail)
        },
        None => None,
    }
}

/// The text of an entry.
pub fn decode_entry_text(data: &[u8]) -> (r: Option<String>)
    ensures
        text::opt_view(r) == entry_text(data@),
{
    proof {
        reveal_strlit("<?xml");
    }
    let bytes = sql_discovery::strip_bom(data);
    if let Some(t) = codec::from_utf8(bytes) {
        return Some(t);
    }
    let window = window_of(bytes, ENTRY_WINDOW);
    match find_in(&window, "<?xml") {
        Some(k) => {
            let tail = &bytes[k..bytes.len()];
            assert(tail@ =~= bytes@.skip(k as int));
            codec::from_utf8(tail)
        },
        None => None,
    }
}

/// The text of a container with the given texts in its entries.
pub fn pick_text(texts: Vec<String>) -> (r: Option<String>)
    ensures
        text::opt_view(r) == container_text(text::views(texts@)),
{
    let ghost all = text::views(texts@);
    let n: usize = texts.len();
    if n == 1 {
        return Some(texts[0].clone());
    }
    proof {
        lemma_tags();
    }
    for i in 0..n
        invariant
            n == texts@.len(),
            n != 1,
            all == text::views(texts@),
            DCS_OPEN@.len() == 22,
            container_text(all) == first_with_schema(all, i as int),
    {
        assert(all[i as int] == texts@[i as int]@);
        let v = text::chars_of(&texts[i]);
        if find_in(&v, DCS_OPEN).is_some() {
            return Some(texts[i].clone());
        }
    }
    None
}

/// The text of a container, from what its entries hold.
pub fn dcs_text_from_container(entries: &Vec<Vec<u8>>) -> (r: Option<String>)
    ensures
        text::opt_view(r) == container_text(entry_texts(byte_views(entries@))),
{
    let ghost all = byte_views(entries@);
    let mut texts: Vec<String> = Vec::new();
    for i in 0..entries.len()
        invariant
            all == byte_views(entries@),
            text::views(texts@) == entry_texts(all.take(i as int)),
    {
        assert(all.take(i + 1).drop_last() =~= all.take(i as int));
        assert(all[i as int] == entries@[i as int]@);
        let data = sql_discovery::try_inflate(&entries[i]);
        if let Some(t) = decode_entry_text(&data) {
            let ghost before = texts@;
            texts.push(t);
            assert(text::views(texts@) =~= text::views(before).push(t@));
        }
    }
    assert(all.take(entries@.len() as int) =~= all);
    pick_text(texts)
}

/// The texts of the entries, where there are any.
pub open spec fn opt_texts(entries: Option<Vec<Vec<u8>>>) -> Option<Seq<Seq<char>>> {
    match entries {
        Some(v) => Some(entry_texts(byte_views(v@))),
        None => None,
    }
}

/// The document of a schema in the data of a template; `entries` is what the
/// entries hold, where the data is a container.
pub fn extract_dcs_xml(bin: &[u8], entries: &Option<Vec<Vec<u8>>>) -> (r: Option<String>)
    ensures
        text::opt_view(r) == extracted(bin@, opt_texts(*entries)),
{
    if let Some(v) = entries {
        if let Some(t) = dcs_text_from_container(v) {
            if let Some(d) = dcs_document_from_xml(&t) {
                return Some(d);
            }
        }
    }
    match dcs_text_from_prologue(bin) {
        Some(t) => dcs_document_from_xml(&t),
        None => None,
    }
}

// Laws.

/// What stands between the tags of a schema is kept as it is, and nothing of
/// what stands before or behind the schema is: the document of a text that
/// holds one schema depends on what the schema holds alone.
pub proof fn body_is_kept(
    pre: Seq<char>,
    open: Seq<char>,
    attributes: Seq<char>,
    body: Seq<char>,
    close: Seq<char>,
    rest: Seq<char>,
)
    requires
        text::eq_ignore_case(open, DCS_OPEN@),
        text::eq_ignore_case(close, DCS_CLOSE@),
        attributes.len() > 0 ==> is_boundary(attributes[0]),
        !attributes.contains('>'),
        !is_self_closing(
            pre + open + attributes + ">"@ + body + close + rest,
            (pre + open + attributes).len() as int,
        ),
        forall|i: int|
            0 <= i < pre.len() ==> !occurs_ci(
                pre + open + attributes + ">"@ + body + close + rest,
                DCS_OPEN@,
                i,
            ),
        forall|i: int|
            (pre + open + attributes).len() < i < (pre + open + attributes + ">"@ + body).len()
                ==> !occurs_ci(
                pre + open + attributes + ">"@ + body + close + rest,
                DCS_OPEN@,
                i,
            ) && !occurs_ci(
                pre + open + attributes + ">"@ + body + close + rest,
                DCS_CLOSE@,
                i,
            ),
    ensures
        schema_document(pre + open + attributes + ">"@ + body + close + rest) == Some(
            document_head() + ">"@ + body + "</DataCompositionSchema>"@,
        ),
{
    let s = pre + open + attributes + ">"@ + body + close + rest;
    lemma_tags();
    reveal_strlit(">");
    let start = pre.len() as int;
    let after = start + open.len();
    let gt = after + attributes.len();
    let from = gt + 1;
    let end = from + body.len();
    assert(s.subrange(start, after) =~= open);
    assert(occurs_ci(s, DCS_OPEN@, start));
    lemma_found_ci(s, DCS_OPEN@, 0, start);
    assert(s[gt] == '>');
    assert(attributes.len() > 0 ==> s[after] == attributes[0]);
    assert(name_ends(s, after));
    assert forall|j: int| after <= j < gt implies s[j] != '>' by {
        assert(s[j] == attributes[j - after]);
        assert(attributes.contains(attributes[j - after]));
    }
    lemma_next_char_is(s, '>', after, gt);
    assert(open_tag(s, 0) == Some((start, from, false)));
    assert(s.subrange(end, end + close.len()) =~= close);
    assert(occurs_ci(s, DCS_CLOSE@, end));
    lemma_found_ci(s, DCS_CLOSE@, from, end);
    lemma_next_open(s, from);
    assert(s[end + 1] == close[1]);
    assert(!occurs_ci(s, DCS_OPEN@, end)) by {
        if occurs_ci(s, DCS_OPEN@, end) {
            let sub = s.subrange(end, end + DCS_OPEN@.len());
            assert(sub[1] == s[end + 1]);
            assert(text::lower_ascii(sub[1]) == text::lower_ascii(DCS_OPEN@[1]));
            assert(text::lower_ascii(close[1]) == text::lower_ascii(DCS_CLOSE@[1]));
        }
    }
    if let Some(o) = next_open(s, from) {
        assert(from <= o);
        assert(o > end);
    }
    assert(closing_tag(s, from, 1) == Some(end));
    assert(s.subrange(from, end) =~= body);
}

proof fn lemma_next_char_is(s: Seq<char>, c: char, i: int, k: int)
    requires
        0 <= i <= k < s.len(),
        s[k] == c,
        forall|j: int| i <= j < k ==> s[j] != c,
    ensures
        text::next_char(s, c, i) == k,
    decreases k - i,
{
    if i < k {
        lemma_next_char_is(s, c, i + 1, k);
    }
}

/// A file whose document begins behind the first bytes has none, unless it is
/// a container.
pub proof fn document_begins_early(bin: Seq<u8>, k: int)
    requires
        document_start(bin) == Some(k),
    ensures
        0 <= k < PROLOGUE_WINDOW,
{
    let window = latin1(head(bin, PROLOGUE_WINDOW as int));
    lemma_tags();
    reveal_strlit("<?xml");
    reveal_strlit("<schemafile");
    lemma_find_ci(window, "<?xml"@, 0);
    lemma_find_ci(window, "<schemafile"@, 0);
    lemma_find_ci(window, DCS_OPEN@, 0);
}

/// A document begins at its declaration, else at the element that holds the
/// schema, else at the schema; only the beginning of the file, `w`, is looked at.
#[verifier::rlimit(40)]
pub proof fn document_begins_at_its_declaration(bin: Seq<u8>, w: Seq<char>, k: int)
    requires
        bin.len() <= 1024 ==> w.len() == bin.len(),
        bin.len() > 1024 ==> w.len() == 1024,
        forall|i: int| 0 <= i < w.len() ==> #[trigger] w[i] == bin[i] as char,
    ensures
        occurs_ci(w, "<?xml"@, k) && (forall|j: int| 0 <= j < k ==> !occurs_ci(w, "<?xml"@, j))
            ==> document_start(bin) == Some(k),
        (forall|j: int| !occurs_ci(w, "<?xml"@, j)) && occurs_ci(w, "<schemafile"@, k) && (forall|
            j: int,
        |
            0 <= j < k ==> !occurs_ci(w, "<schemafile"@, j)) ==> document_start(bin) == Some(k),
        (forall|j: int| !occurs_ci(w, "<?xml"@, j)) && (forall|j: int|
            !occurs_ci(w, "<schemafile"@, j)) && occurs_ci(w, "<datacompositionschema"@, k) && (
        forall|j: int| 0 <= j < k ==> !occurs_ci(w, "<datacompositionschema"@, j))
            ==> document_start(bin) == Some(k),
        (forall|j: int| !occurs_ci(w, "<?xml"@, j)) && (forall|j: int|
            !occurs_ci(w, "<schemafile"@, j)) && (forall|j: int|
            !occurs_ci(w, "<datacompositionschema"@, j)) ==> document_start(bin) is None,
{
    assert(latin1(head(bin, 1024)) =~= w);
    lemma_find_ci(w, "<?xml"@, 0);
    lemma_find_ci(w, "<schemafile"@, 0);
    lemma_find_ci(w, "<datacompositionschema"@, 0);
    lemma_first_ci(w, "<?xml"@, k);
    lemma_first_ci(w, "<schemafile"@, k);
    lemma_first_ci(w, "<datacompositionschema"@, k);
}

proof fn lemma_first_ci(s: Seq<char>, p: Seq<char>, k: int)
    ensures
        occurs_ci(s, p, k) && (forall|j: int| 0 <= j < k ==> !occurs_ci(s, p, j)) ==> find_ci_from(
            s,
            p,
            0,
        ) == Some(k),
{
    lemma_find_ci(s, p, 0);
    if occurs_ci(s, p, k) && (forall|j: int| 0 <= j < k ==> !occurs_ci(s, p, j)) {
        let f = find_ci_from(s, p, 0)->0;
        if f < k {
            assert(!occurs_ci(s, p, f));
        }
    }
}

/// Whether a text stands at a place does not depend on the case of its letters.
pub proof fn case_of_tags_does_not_matter(s: Seq<char>, p: Seq<char>, i: int)
    ensures
        occurs_ci(s, p, i) <==> 0 <= i && i + p.len() <= s.len() && text::lowered(
            s.subrange(i, i + p.len()),
        ) == text::lowered(p),
{
    if 0 <= i && i + p.len() <= s.len() {
        text::capital_letters_are_lowered(s.subrange(i, i + p.len()), p);
    }
}

/// A text without a schema has no document, and one in which the schema is not
/// closed has none either.
pub proof fn no_schema_means_no_document(s: Seq<char>)
    ensures
        (forall|i: int| 0 <= i ==> !#[trigger] occurs_ci(s, "<datacompositionschema"@, i))
            ==> schema_document(s) is None,
        schema_document(s) matches Some(d) ==> text::starts(d, document_head()),
{
    lemma_find_ci(s, "<datacompositionschema"@, 0);
    if let Some(d) = schema_document(s) {
        assert(d.take(document_head().len() as int) =~= document_head());
    }
}

/// The document of a template is that of its container where that has one, else
/// that of the file itself.
pub proof fn container_comes_first(bin: Seq<u8>, texts: Seq<Seq<char>>, i: int)
    ensures
        texts.len() == 1 ==> container_text(texts) == Some(texts[0]),
        texts.len() != 1 && 0 <= i < texts.len() && (exists|k: int|
            occurs_ci(texts[i], "<datacompositionschema"@, k)) && (forall|j: int, k: int|
            0 <= j < i ==> !#[trigger] occurs_ci(texts[j], "<datacompositionschema"@, k))
            ==> container_text(texts) == Some(texts[i]),
        container_text(texts) matches Some(t) ==> (schema_document(t) is Some ==> extracted(
            bin,
            Some(texts),
        ) == schema_document(t)),
        container_text(texts) is None ==> extracted(bin, Some(texts)) == extracted(bin, None),
        extracted(bin, None) == match document_start(bin) {
            Some(k) => match codec::utf8(bin.skip(k)) {
                Some(t) => schema_document(t),
                None => None,
            },
            None => None,
        },
{
    if texts.len() != 1 && 0 <= i < texts.len() && (exists|k: int|
        occurs_ci(texts[i], "<datacompositionschema"@, k)) && (forall|j: int, k: int|
        0 <= j < i ==> !#[trigger] occurs_ci(texts[j], "<datacompositionschema"@, k)) {
        lemma_first_schema(texts, 0, i);
    }
}

proof fn lemma_first_schema(texts: Seq<Seq<char>>, from: int, i: int)
    requires
        0 <= from <= i < texts.len(),
        exists|k: int| occurs_ci(texts[i], DCS_OPEN@, k),
        forall|j: int, k: int| 0 <= j < i ==> !#[trigger] occurs_ci(texts[j], DCS_OPEN@, k),
    ensures
        first_with_schema(texts, from) == Some(texts[i]),
    decreases i - from,
{
    lemma_find_ci(texts[from], DCS_OPEN@, 0);
    if from < i {
        if let Some(k) = find_ci_from(texts[from], DCS_OPEN@, 0) {
            assert(!occurs_ci(texts[from], DCS_OPEN@, k));
        }
        lemma_first_schema(texts, from + 1, i);
    } else {
        let k = choose|k: int| occurs_ci(texts[i], DCS_OPEN@, k);
        assert(occurs_ci(texts[i], DCS_OPEN@, k));
    }
}

/// Every entry of a container that is a text is looked at, in its order; one that
/// is compressed as what it inflates to, without the mark of its encoding.
pub proof fn every_text_entry_is_looked_at(entries: Seq<Seq<u8>>, more: Seq<u8>)
    ensures
        ({
            let data = match codec::inflate(more) {
                Ok(d) => d,
                Err(_) => more,
            };
            let plain = if data.len() >= 3 && data[0] == 0xEF && data[1] == 0xBB && data[2] == 0xBF {
                data.skip(3)
            } else {
                data
            };
            &&& codec::utf8(plain) matches Some(t) ==> entry_texts(entries.push(more))
                == entry_texts(entries).push(t)
            &&& entry_text(data) is None ==> entry_texts(entries.push(more)) == entry_texts(entries)
        }),
        entry_texts(Seq::empty()).len() == 0,
{
    assert(entries.push(more).drop_last() =~= entries);
}

/// The end of a schema is the tag that closes it: each schema inside it that is
/// opened is closed before it.
pub proof fn nested_schemas_are_counted(s: Seq<char>, pos: int, depth: nat, o: int, c: int)
    requires
        0 <= pos < s.len(),
    ensures
        next_open(s, pos) == Some(o) && find_ci_from(s, "</datacompositionschema"@, pos) == Some(c)
            && o < c ==> closing_tag(s, pos, depth) == closing_tag(s, o + 22, depth + 1),
        (next_open(s, pos) is None || next_open(s, pos)->0 >= c) && find_ci_from(
            s,
            "</datacompositionschema"@,
            pos,
        ) == Some(c) && depth <= 1 ==> closing_tag(s, pos, depth) == Some(c),
        (next_open(s, pos) is None || next_open(s, pos)->0 >= c) && find_ci_from(
            s,
            "</datacompositionschema"@,
            pos,
        ) == Some(c) && depth > 1 ==> closing_tag(s, pos, depth) == closing_tag(
            s,
            c + 23,
            (depth - 1) as nat,
        ),
        next_open(s, pos) is None && find_ci_from(s, "</datacompositionschema"@, pos) is None
            ==> closing_tag(s, pos, depth) is None,
{
    lemma_tags();
}

/// A schema that is opened inside another one counts where its name ends there and
/// it is not closed at once.
pub proof fn opened_schemas_count(s: Seq<char>, from: int, k: int, gt: int)
    requires
        0 <= from,
        find_ci_from(s, "<datacompositionschema"@, from) == Some(k),
        text::next_char(s, '>', k + 22) == gt,
    ensures
        k + 22 < s.len() && is_boundary(s[k + 22]) && gt < s.len() && !is_self_closing(s, gt)
            ==> next_open(s, from) == Some(k),
        k + 22 < s.len() && is_boundary(s[k + 22]) && gt < s.len() && is_self_closing(s, gt)
            ==> next_open(s, from) == next_open(s, gt + 1),
        k + 22 < s.len() && !is_boundary(s[k + 22]) ==> next_open(s, from) == next_open(s, k + 22),
{
    lemma_tags();
}

/// The name of a tag ends with white space, a stroke or the end of the tag; a tag
/// is closed at once where a stroke stands before its end, white space aside.
pub proof fn tags_end_with_their_signs(c: char, head: Seq<char>, rest: Seq<char>)
    ensures
        is_boundary(c) <==> c == ' ' || c == '\t' || c == '\r' || c == '\n' || c == '>' || c == '/',
        is_self_closing(head.push('/') + rest, head.len() as int + 1),
        head.len() > 0 && head.last() != '/' && head.last() != ' ' && head.last() != '\t'
            && head.last() != '\r' && head.last() != '\n' && head.last() != '\x0C'
            ==> !is_self_closing(head + rest, head.len() as int),
{
    reveal_strlit(" \t\n\x0C\r");
    let set = " \t\n\x0C\r"@;
    let a = head.push('/');
    assert((a + rest).take(head.len() as int + 1) =~= a);
    assert(a.last() == '/');
    assert(!set.contains('/'));
    assert(text::trim_end_of(a, set) == a);
    assert((head + rest).take(head.len() as int) =~= head);
    if head.len() > 0 && head.last() != '/' && head.last() != ' ' && head.last() != '\t'
        && head.last() != '\r' && head.last() != '\n' && head.last() != '\x0C' {
        assert(!set.contains(head.last()));
        assert(text::trim_end_of(head, set) == head);
    }
}

} // verus!
