//! Text operations over sequences of characters.
//!
//! Every string of the library is modelled by its view, a `Seq<char>`. The
//! specification functions below say what each operation is on such
//! sequences; the executable functions after them are proved against these.

use vstd::prelude::*;

verus! {

/// `String::push` appends one character to the end of the string.
pub assume_specification[ String::push ](s: &mut String, ch: char)
    ensures
        final(s)@ == old(s)@.push(ch),
;

/// The characters with the Unicode property White_Space.
pub open spec fn is_space(c: char) -> bool {
    ||| 0x09 <= c as u32 <= 0x0d
    ||| c as u32 == 0x20
    ||| c as u32 == 0x85
    ||| c as u32 == 0xa0
    ||| c as u32 == 0x1680
    ||| 0x2000 <= c as u32 <= 0x200a
    ||| c as u32 == 0x2028
    ||| c as u32 == 0x2029
    ||| c as u32 == 0x202f
    ||| c as u32 == 0x205f
    ||| c as u32 == 0x3000
}

/// The views of a list of strings.
pub open spec fn views(v: Seq<String>) -> Seq<Seq<char>> {
    v.map_values(|s: String| s@)
}

/// The view of an optional string.
pub open spec fn opt_view(o: Option<String>) -> Option<Seq<char>> {
    match o {
        Some(s) => Some(s@),
        None => None,
    }
}

/// The views of an optional pair of strings.
pub open spec fn pair_view(o: Option<(String, String)>) -> Option<(Seq<char>, Seq<char>)> {
    match o {
        Some((a, b)) => Some((a@, b@)),
        None => None,
    }
}

// Trimming.

/// `s` without its leading white space.
pub open spec fn trim_start(s: Seq<char>) -> Seq<char>
    decreases s.len(),
{
    if s.len() > 0 && is_space(s[0]) {
        trim_start(s.skip(1))
    } else {
        s
    }
}

/// `s` without its trailing white space.
pub open spec fn trim_end(s: Seq<char>) -> Seq<char>
    decreases s.len(),
{
    if s.len() > 0 && is_space(s.last()) {
        trim_end(s.drop_last())
    } else {
        s
    }
}

/// `s` without the white space on either side.
pub open spec fn trim(s: Seq<char>) -> Seq<char> {
    trim_end(trim_start(s))
}

/// `s` without the characters of `set` at its end.
pub open spec fn trim_end_of(s: Seq<char>, set: Seq<char>) -> Seq<char>
    decreases s.len(),
{
    if s.len() > 0 && set.contains(s.last()) {
        trim_end_of(s.drop_last(), set)
    } else {
        s
    }
}

// Searching.

/// `p` stands in `s` at position `i`.
pub open spec fn occurs_at(s: Seq<char>, p: Seq<char>, i: int) -> bool {
    0 <= i && i + p.len() <= s.len() && s.subrange(i, i + p.len()) == p
}

/// The first position at or after `i` at which `p` stands in `s`.
pub open spec fn find_from(s: Seq<char>, p: Seq<char>, i: int) -> Option<int>
    decreases s.len() + 1 - i,
{
    if i < 0 || i + p.len() > s.len() {
        None
    } else if occurs_at(s, p, i) {
        Some(i)
    } else {
        find_from(s, p, i + 1)
    }
}

/// The first position at which `p` stands in `s`.
pub open spec fn find(s: Seq<char>, p: Seq<char>) -> Option<int> {
    find_from(s, p, 0)
}

/// The last position at or before `i` at which `p` stands in `s`.
pub open spec fn rfind_from(s: Seq<char>, p: Seq<char>, i: int) -> Option<int>
    decreases i + 1,
{
    if i < 0 {
        None
    } else if occurs_at(s, p, i) {
        Some(i)
    } else {
        rfind_from(s, p, i - 1)
    }
}

/// The last position at which `p` stands in `s`.
pub open spec fn rfind(s: Seq<char>, p: Seq<char>) -> Option<int> {
    rfind_from(s, p, s.len() - p.len())
}

/// `p` stands somewhere in `s`.
pub open spec fn has(s: Seq<char>, p: Seq<char>) -> bool {
    find(s, p) is Some
}

/// `s` begins with `p`.
pub open spec fn starts(s: Seq<char>, p: Seq<char>) -> bool {
    p.len() <= s.len() && s.take(p.len() as int) == p
}

/// `s` ends with `p`.
pub open spec fn ends(s: Seq<char>, p: Seq<char>) -> bool {
    p.len() <= s.len() && s.skip(s.len() - p.len()) == p
}

/// What stands before and after the first `p` in `s`.
pub open spec fn split_once(s: Seq<char>, p: Seq<char>) -> Option<(Seq<char>, Seq<char>)> {
    match find(s, p) {
        Some(i) => Some((s.take(i), s.skip(i + p.len()))),
        None => None,
    }
}

/// What stands before and after the last `p` in `s`.
pub open spec fn rsplit_once(s: Seq<char>, p: Seq<char>) -> Option<(Seq<char>, Seq<char>)> {
    match rfind(s, p) {
        Some(i) => Some((s.take(i), s.skip(i + p.len()))),
        None => None,
    }
}

/// `s` with every `p`, taken from the left and without overlap, replaced by `t`.
pub open spec fn replace(s: Seq<char>, p: Seq<char>, t: Seq<char>) -> Seq<char>
    decreases s.len(),
{
    if p.len() == 0 || p.len() > s.len() {
        s
    } else if starts(s, p) {
        t + replace(s.skip(p.len() as int), p, t)
    } else {
        seq![s[0]] + replace(s.skip(1), p, t)
    }
}

/// The first `n` characters of `s`, or all of it.
pub open spec fn first(s: Seq<char>, n: int) -> Seq<char> {
    if s.len() <= n {
        s
    } else {
        s.take(n)
    }
}

// Lists of strings.

/// A line without the carriage return that ends it.
pub open spec fn strip_cr(s: Seq<char>) -> Seq<char> {
    if s.len() > 0 && s.last() == '\r' {
        s.drop_last()
    } else {
        s
    }
}

/// The position of the first `c` in `s` at or after `i`, or the length of `s`.
pub open spec fn next_char(s: Seq<char>, c: char, i: int) -> int
    decreases s.len() - i,
{
    if i < 0 || i >= s.len() {
        s.len() as int
    } else if s[i] == c {
        i
    } else {
        next_char(s, c, i + 1)
    }
}

/// The lines of `s`: a line ends with a line feed, before which one carriage
/// return is dropped; the last line need not end.
pub open spec fn lines(s: Seq<char>) -> Seq<Seq<char>>
    decreases s.len(),
{
    if s.len() == 0 {
        Seq::empty()
    } else {
        let k = next_char(s, '\n', 0);
        if 0 <= k < s.len() {
            seq![strip_cr(s.take(k))] + lines(s.skip(k + 1))
        } else {
            seq![s]
        }
    }
}

/// The strings of `v` with `sep` between neighbours.
pub open spec fn join(v: Seq<Seq<char>>, sep: Seq<char>) -> Seq<char>
    decreases v.len(),
{
    if v.len() == 0 {
        Seq::empty()
    } else if v.len() == 1 {
        v[0]
    } else {
        join(v.drop_last(), sep) + sep + v.last()
    }
}

// Case.

/// The ASCII lower-case form of a character.
pub open spec fn lower_ascii(c: char) -> char {
    if 'A' <= c <= 'Z' {
        (c as u32 + 32) as char
    } else {
        c
    }
}

/// `a` and `b` are equal up to the case of ASCII letters.
pub open spec fn eq_ignore_case(a: Seq<char>, b: Seq<char>) -> bool {
    a.len() == b.len() && forall|i: int|
        0 <= i < a.len() ==> lower_ascii(#[trigger] a[i]) == lower_ascii(b[i])
}

/// What `str::to_lowercase` makes of a string.
pub uninterp spec fn lowercase(s: Seq<char>) -> Seq<char>;

/// The text holds ASCII characters only.
pub open spec fn is_ascii(s: Seq<char>) -> bool {
    forall|i: int| 0 <= i < s.len() ==> (#[trigger] s[i] as u32) < 128
}

/// `str::to_lowercase`: the Unicode lower-case equivalent of the string, a
/// function of the string alone. Of ASCII text it is that text with its
/// capital letters turned into small ones.
#[verifier::external_body]
pub(crate) fn to_lowercase(s: &str) -> (r: String)
    ensures
        r@ == lowercase(s@),
        is_ascii(s@) ==> r@ == lowered(s@),
{
    s.to_lowercase()
}

/// A text in lower case: its ASCII form where it is ASCII text, else what
/// `str::to_lowercase` makes of it.
pub open spec fn lower(s: Seq<char>) -> Seq<char> {
    if is_ascii(s) {
        lowered(s)
    } else {
        lowercase(s)
    }
}

/// The ASCII upper-case form of a character.
pub open spec fn upper_ascii(c: char) -> char {
    if 'a' <= c <= 'z' {
        (c as u32 - 32) as char
    } else {
        c
    }
}

/// A text with its ASCII letters in upper case.
pub open spec fn raised(s: Seq<char>) -> Seq<char> {
    s.map_values(|c: char| upper_ascii(c))
}

/// What `str::to_uppercase` makes of a string.
pub uninterp spec fn uppercase(s: Seq<char>) -> Seq<char>;

/// `str::to_uppercase`: the Unicode upper-case equivalent of the string, a
/// function of the string alone. Of ASCII text it is that text with its small
/// letters turned into capital ones.
#[verifier::external_body]
pub(crate) fn to_uppercase(s: &str) -> (r: String)
    ensures
        r@ == uppercase(s@),
        is_ascii(s@) ==> r@ == raised(s@),
{
    s.to_uppercase()
}

/// A text in upper case: its ASCII form where it is ASCII text, else what
/// `str::to_uppercase` makes of it.
pub open spec fn upper(s: Seq<char>) -> Seq<char> {
    if is_ascii(s) {
        raised(s)
    } else {
        uppercase(s)
    }
}

// Numbers.

/// The decimal digit of a number below ten.
pub open spec fn digit(d: nat) -> char {
    (48 + d) as char
}

/// The decimal notation of a number.
pub open spec fn dec(n: nat) -> Seq<char>
    decreases n,
{
    if n < 10 {
        seq![digit(n)]
    } else {
        dec(n / 10).push(digit(n % 10))
    }
}

/// The decimal notation of an integer, with a minus sign below zero.
pub open spec fn dec_int(n: int) -> Seq<char> {
    if n < 0 {
        seq!['-'] + dec((-n) as nat)
    } else {
        dec(n as nat)
    }
}

/// The character is a decimal digit.
pub open spec fn is_digit(c: char) -> bool {
    '0' <= c <= '9'
}

/// The number that decimal digits stand for.
pub open spec fn dec_value(s: Seq<char>) -> nat
    decreases s.len(),
{
    if s.len() == 0 {
        0
    } else {
        dec_value(s.drop_last()) * 10 + (s.last() as u32 - 48) as nat
    }
}

/// The character is a hexadecimal digit.
pub open spec fn is_hex(c: char) -> bool {
    '0' <= c <= '9' || 'a' <= c <= 'f' || 'A' <= c <= 'F'
}

/// The text is an identifier of the form 8-4-4-4-12, of hexadecimal digits.
pub open spec fn is_uuid(s: Seq<char>) -> bool {
    s.len() == 36 && forall|k: int|
        0 <= k < 36 ==> if k == 8 || k == 13 || k == 18 || k == 23 {
            #[trigger] s[k] == '-'
        } else {
            is_hex(s[k])
        }
}

/// A text with its ASCII letters in lower case.
pub open spec fn lowered(s: Seq<char>) -> Seq<char> {
    s.map_values(|c: char| lower_ascii(c))
}

/// The last `n` characters of `s`, or all of it.
pub open spec fn last_part(s: Seq<char>, n: int) -> Seq<char> {
    if s.len() <= n {
        s
    } else {
        s.skip(s.len() - n)
    }
}

/// The hexadecimal digit of a number below sixteen, with the letter `a` given.
pub open spec fn hex_digit(n: int, a: char) -> char {
    if n < 10 {
        (48 + n) as char
    } else {
        (a as u32 + n - 10) as char
    }
}

/// A byte in two hexadecimal digits.
pub open spec fn hex_byte(b: u8, a: char) -> Seq<char> {
    seq![hex_digit(b as int / 16, a), hex_digit(b as int % 16, a)]
}

/// Bytes in hexadecimal notation; `a` is the letter of the digit ten.
pub open spec fn hex(bytes: Seq<u8>, a: char) -> Seq<char>
    decreases bytes.len(),
{
    if bytes.len() == 0 {
        Seq::empty()
    } else {
        hex(bytes.drop_last(), a) + hex_byte(bytes.last(), a)
    }
}

// Conversions between strings and vectors of characters.

/// The characters of a string.
pub fn chars_of(s: &str) -> (r: Vec<char>)
    ensures
        r@ == s@,
{
    let mut out: Vec<char> = Vec::new();
    for c in it: s.chars()
        invariant
            out@ == s@.take(it.index() as int),
            it.seq() == s@,
    {
        out.push(c);
    }
    out
}

/// The string of the given characters.
pub fn string_of(v: &[char]) -> (r: String)
    ensures
        r@ == v@,
{
    let mut out = String::new();
    for i in 0..v.len()
        invariant
            out@ == v@.take(i as int),
    {
        out.push(v[i]);
    }
    out
}

/// Whether two strings are equal.
pub fn same(a: &str, b: &str) -> (r: bool)
    ensures
        r == (a@ == b@),
{
    a.to_owned() == b.to_owned()
}

/// Whether two slices of characters are equal.
pub fn same_chars(a: &[char], b: &[char]) -> (r: bool)
    ensures
        r == (a@ == b@),
{
    if a.len() != b.len() {
        return false;
    }
    for i in 0..a.len()
        invariant
            a.len() == b.len(),
            a@.take(i as int) == b@.take(i as int),
    {
        if a[i] != b[i] {
            assert(a@[i as int] != b@[i as int]);
            return false;
        }
        assert(a@.take(i + 1) =~= a@.take(i as int).push(a@[i as int]));
        assert(b@.take(i + 1) =~= b@.take(i as int).push(b@[i as int]));
    }
    assert(a@.take(a@.len() as int) =~= a@);
    assert(b@.take(b@.len() as int) =~= b@);
    true
}

/// A copy of an optional string.
pub fn clone_opt(o: &Option<String>) -> (r: Option<String>)
    ensures
        opt_view(r) == opt_view(*o),
{
    match o {
        Some(s) => Some(s.clone()),
        None => None,
    }
}

/// Whether a character has the Unicode property White_Space.
pub fn is_white(c: char) -> (r: bool)
    ensures
        r == is_space(c),
{
    let n: u32 = c as u32;
    (0x09 <= n && n <= 0x0d) || n == 0x20 || n == 0x85 || n == 0xa0 || n == 0x1680 || (0x2000 <= n
        && n <= 0x200a) || n == 0x2028 || n == 0x2029 || n == 0x202f || n == 0x205f || n == 0x3000
}

// Trimming.

/// Where the text of `s` starts after its leading white space.
fn skip_space(s: &[char]) -> (i: usize)
    ensures
        i <= s@.len(),
        s@.skip(i as int) == trim_start(s@),
{
    let mut i: usize = 0;
    assert(s@.skip(0) =~= s@);
    while i < s.len() && is_white(s[i])
        invariant
            i <= s@.len(),
            trim_start(s@.skip(i as int)) == trim_start(s@),
        decreases s.len() - i,
    {
        assert(s@.skip(i as int).skip(1) =~= s@.skip(i + 1));
        i = i + 1;
    }
    i
}

/// Where the text of `s` ends before its trailing white space.
fn back_space(s: &[char]) -> (n: usize)
    ensures
        n <= s@.len(),
        s@.take(n as int) == trim_end(s@),
{
    let mut n: usize = s.len();
    assert(s@.take(n as int) =~= s@);
    while n > 0 && is_white(s[n - 1])
        invariant
            n <= s@.len(),
            trim_end(s@.take(n as int)) == trim_end(s@),
        decreases n,
    {
        assert(s@.take(n as int).drop_last() =~= s@.take(n - 1));
        n = n - 1;
    }
    n
}

/// A slice without the white space on either side.
pub fn trim_chars(s: &[char]) -> (r: &[char])
    ensures
        r@ == trim(s@),
{
    let i = skip_space(s);
    let t = &s[i..s.len()];
    assert(t@ =~= s@.skip(i as int));
    let n = back_space(t);
    let r = &t[0..n];
    assert(r@ =~= t@.take(n as int));
    r
}

/// A string without the white space on either side.
pub fn trimmed(s: &str) -> (r: String)
    ensures
        r@ == trim(s@),
{
    let v = chars_of(s);
    string_of(trim_chars(&v))
}

/// A string without the characters of `set` at its end.
pub fn trimmed_end_of(s: &str, set: &str) -> (r: String)
    ensures
        r@ == trim_end_of(s@, set@),
{
    let v = chars_of(s);
    let cs = chars_of(set);
    let mut n: usize = v.len();
    assert(v@.take(n as int) =~= s@);
    while n > 0 && has_char(&cs, v[n - 1])
        invariant
            v@ == s@,
            cs@ == set@,
            n <= v@.len(),
            trim_end_of(v@.take(n as int), set@) == trim_end_of(s@, set@),
        decreases n,
    {
        assert(v@.take(n as int).drop_last() =~= v@.take(n - 1));
        n = n - 1;
    }
    let r = &v[0..n];
    assert(r@ =~= v@.take(n as int));
    string_of(r)
}

/// Whether `c` is among the characters of `s`.
pub fn has_char(s: &[char], c: char) -> (r: bool)
    ensures
        r == s@.contains(c),
{
    for i in 0..s.len()
        invariant
            forall|j: int| 0 <= j < i ==> s@[j] != c,
    {
        if s[i] == c {
            return true;
        }
    }
    false
}

/// A trimmed text is part of the text, and no white space stands at its ends.
pub proof fn lemma_trim_ends(s: Seq<char>)
    ensures
        trim(s).len() > 0 ==> !is_space(trim(s)[0]) && !is_space(trim(s).last()),
{
    lemma_trim_start_first(s);
    lemma_trim_end_last(trim_start(s));
}

proof fn lemma_trim_start_first(s: Seq<char>)
    ensures
        trim_start(s).len() > 0 ==> !is_space(trim_start(s)[0]),
    decreases s.len(),
{
    if s.len() > 0 && is_space(s[0]) {
        lemma_trim_start_first(s.skip(1));
    }
}

proof fn lemma_trim_end_last(s: Seq<char>)
    ensures
        trim_end(s).len() <= s.len(),
        trim_end(s) == s.take(trim_end(s).len() as int),
        trim_end(s).len() > 0 ==> !is_space(trim_end(s).last()),
    decreases s.len(),
{
    if s.len() > 0 && is_space(s.last()) {
        lemma_trim_end_last(s.drop_last());
        let n = trim_end(s).len() as int;
        assert(s.drop_last().take(n) =~= s.take(n));
    } else {
        assert(s.take(s.len() as int) =~= s);
    }
}

/// A text without white space at its ends is its own trimmed form.
pub proof fn lemma_trim_id(s: Seq<char>)
    requires
        s.len() > 0 ==> !is_space(s[0]) && !is_space(s.last()),
    ensures
        trim(s) == s,
{
}

/// Trimming twice is trimming once.
pub proof fn lemma_trim_twice(s: Seq<char>)
    ensures
        trim(trim(s)) == trim(s),
{
    lemma_trim_ends(s);
    lemma_trim_id(trim(s));
}

// Searching.

/// Whether `p` stands in `s` at position `i`.
pub fn is_at(s: &[char], p: &[char], i: usize) -> (r: bool)
    requires
        i <= s@.len(),
    ensures
        r == occurs_at(s@, p@, i as int),
{
    if p.len() > s.len() - i {
        return false;
    }
    let t = &s[i..i + p.len()];
    same_chars(t, p)
}

/// The first position at or after `from` at which `p` stands in `s`.
pub fn find_chars(s: &[char], p: &[char], from: usize) -> (r: Option<usize>)
    requires
        from <= s@.len(),
    ensures
        r is Some == find_from(s@, p@, from as int) is Some,
        r is Some ==> find_from(s@, p@, from as int) == Some(r->0 as int),
        r is Some ==> from <= r->0 && r->0 + p@.len() <= s@.len(),
{
    let mut i: usize = from;
    while i <= s.len() && p.len() <= s.len() - i
        invariant
            from <= i <= s@.len() + 1,
            find_from(s@, p@, from as int) == find_from(s@, p@, i as int),
        decreases s.len() + 1 - i,
    {
        if is_at(s, p, i) {
            return Some(i);
        }
        if i == s.len() {
            assert(find_from(s@, p@, i + 1) is None);
            return None;
        }
        i = i + 1;
    }
    None
}

/// The last position at which `p` stands in `s`.
pub fn rfind_chars(s: &[char], p: &[char]) -> (r: Option<usize>)
    ensures
        r is Some == rfind(s@, p@) is Some,
        r is Some ==> rfind(s@, p@) == Some(r->0 as int) && r->0 + p@.len() <= s@.len(),
{
    if p.len() > s.len() {
        return None;
    }
    let mut i: usize = s.len() - p.len();
    loop
        invariant
            p@.len() <= s@.len(),
            i <= s@.len() - p@.len(),
            rfind(s@, p@) == rfind_from(s@, p@, i as int),
        decreases i,
    {
        if is_at(s, p, i) {
            return Some(i);
        }
        if i == 0 {
            assert(rfind_from(s@, p@, -1) is None);
            return None;
        }
        i = i - 1;
    }
}

/// Whether `p` stands somewhere in `s`.
pub fn contains(s: &str, p: &str) -> (r: bool)
    ensures
        r == has(s@, p@),
{
    let v = chars_of(s);
    let q = chars_of(p);
    find_chars(&v, &q, 0).is_some()
}

/// Whether `s` begins with `p`.
pub fn starts_with(s: &str, p: &str) -> (r: bool)
    ensures
        r == starts(s@, p@),
{
    let v = chars_of(s);
    let q = chars_of(p);
    starts_chars(&v, &q)
}

/// Whether `s` begins with `p`.
pub fn starts_chars(s: &[char], p: &[char]) -> (r: bool)
    ensures
        r == starts(s@, p@),
{
    if p.len() > s.len() {
        return false;
    }
    let t = &s[0..p.len()];
    assert(t@ =~= s@.take(p@.len() as int));
    same_chars(t, p)
}

/// Whether `s` ends with `p`.
pub fn ends_with(s: &str, p: &str) -> (r: bool)
    ensures
        r == ends(s@, p@),
{
    let v = chars_of(s);
    let q = chars_of(p);
    if q.len() > v.len() {
        return false;
    }
    let t = &v[v.len() - q.len()..v.len()];
    assert(t@ =~= s@.skip(s@.len() - p@.len()));
    same_chars(t, &q)
}

/// A first-occurrence search returns a position at which the pattern stands,
/// and no earlier one.
pub proof fn lemma_find_from(s: Seq<char>, p: Seq<char>, i: int)
    requires
        0 <= i,
    ensures
        match find_from(s, p, i) {
            Some(k) => i <= k && occurs_at(s, p, k) && forall|j: int|
                i <= j < k ==> !occurs_at(s, p, j),
            None => forall|j: int| i <= j ==> !occurs_at(s, p, j),
        },
    decreases s.len() + 1 - i,
{
    if i + p.len() <= s.len() && !occurs_at(s, p, i) {
        lemma_find_from(s, p, i + 1);
    }
}

/// A pattern of one character stands where that character stands.
pub proof fn lemma_occurs_char(s: Seq<char>, p: Seq<char>, i: int)
    requires
        p.len() == 1,
    ensures
        occurs_at(s, p, i) == (0 <= i < s.len() && s[i] == p[0]),
{
    if 0 <= i < s.len() {
        assert(s.subrange(i, i + 1)[0] == s[i]);
        if s[i] == p[0] {
            assert(s.subrange(i, i + 1) =~= p);
        }
    }
}

/// A text is split at the first separator: what stands before it holds none.
pub proof fn lemma_split_at_char(head: Seq<char>, p: Seq<char>, tail: Seq<char>)
    requires
        p.len() == 1,
        !head.contains(p[0]),
    ensures
        find(head + p + tail, p) == Some(head.len() as int),
        split_once(head + p + tail, p) == Some((head, tail)),
{
    let s = head + p + tail;
    let k = head.len() as int;
    assert(s[k] == p[0]);
    assert forall|j: int| 0 <= j < k implies !occurs_at(s, p, j) by {
        lemma_occurs_char(s, p, j);
        assert(s[j] == head[j]);
    }
    lemma_occurs_char(s, p, k);
    lemma_found(s, p, k);
    assert(s.take(k) =~= head);
    assert(s.skip(k + 1) =~= tail);
}

/// The first place at which the pattern stands is the one that a search finds.
pub proof fn lemma_found(s: Seq<char>, p: Seq<char>, k: int)
    requires
        occurs_at(s, p, k),
        forall|j: int| 0 <= j < k ==> !occurs_at(s, p, j),
    ensures
        find(s, p) == Some(k),
{
    lemma_find_from(s, p, 0);
}

/// What stands before and after the first `p` in `s`.
pub fn cut_once(s: &str, p: &str) -> (r: Option<(String, String)>)
    ensures
        pair_view(r) == split_once(s@, p@),
{
    let v = chars_of(s);
    let q = chars_of(p);
    match find_chars(&v, &q, 0) {
        Some(i) => {
            let n: usize = v.len();
            let head = &v[0..i];
            let tail = &v[i + q.len()..n];
            assert(head@ =~= s@.take(i as int));
            assert(tail@ =~= s@.skip(i + p@.len()));
            Some((string_of(head), string_of(tail)))
        },
        None => None,
    }
}

/// What stands before and after the last `p` in `s`.
pub fn rcut_once(s: &str, p: &str) -> (r: Option<(String, String)>)
    ensures
        pair_view(r) == rsplit_once(s@, p@),
{
    let v = chars_of(s);
    let q = chars_of(p);
    match rfind_chars(&v, &q) {
        Some(i) => {
            let n: usize = v.len();
            let head = &v[0..i];
            let tail = &v[i + q.len()..n];
            assert(head@ =~= s@.take(i as int));
            assert(tail@ =~= s@.skip(i + p@.len()));
            Some((string_of(head), string_of(tail)))
        },
        None => None,
    }
}

/// A string with every `p` replaced by `t`.
pub fn replaced(s: &str, p: &str, t: &str) -> (r: String)
    requires
        p@.len() > 0,
    ensures
        r@ == replace(s@, p@, t@),
{
    let v = chars_of(s);
    let q = chars_of(p);
    let mut out = String::new();
    let mut i: usize = 0;
    assert(v@.skip(0) =~= s@);
    assert(out@ + replace(s@, p@, t@) =~= replace(s@, p@, t@));
    while i < v.len() && q.len() <= v.len() - i
        invariant
            v@ == s@,
            q@ == p@,
            p@.len() > 0,
            i <= v@.len(),
            out@ + replace(s@.skip(i as int), p@, t@) == replace(s@, p@, t@),
        decreases v.len() - i,
    {
        let ghost rest = s@.skip(i as int);
        let hit = is_at(&v, &q, i);
        assert(rest.take(p@.len() as int) =~= s@.subrange(i as int, i + p@.len()));
        if hit {
            assert(rest.skip(p@.len() as int) =~= s@.skip(i + p@.len()));
            let ghost before = out@;
            out.append(t);
            assert(before + (t@ + replace(s@.skip(i + p@.len()), p@, t@)) =~= out@ + replace(
                s@.skip(i + p@.len()),
                p@,
                t@,
            ));
            i = i + q.len();
        } else {
            assert(rest.skip(1) =~= s@.skip(i + 1));
            let ghost before = out@;
            out.push(v[i]);
            assert(before + (seq![s@[i as int]] + replace(s@.skip(i + 1), p@, t@)) =~= out@
                + replace(s@.skip(i + 1), p@, t@));
            i = i + 1;
        }
    }
    let tail = &v[i..v.len()];
    assert(tail@ =~= s@.skip(i as int));
    let rest = string_of(tail);
    out.append(&rest);
    out
}

/// The first `n` characters of a string, or all of it.
pub fn first_chars(s: &str, n: usize) -> (r: String)
    ensures
        r@ == first(s@, n as int),
{
    let v = chars_of(s);
    if v.len() <= n {
        return s.to_owned();
    }
    let head = &v[0..n];
    assert(head@ =~= s@.take(n as int));
    string_of(head)
}

// Lists.

/// The lines of a string.
pub fn lines_of(s: &str) -> (r: Vec<String>)
    ensures
        views(r@) == lines(s@),
{
    let v = chars_of(s);
    let mut out: Vec<String> = Vec::new();
    let mut i: usize = 0;
    assert(v@.skip(0) =~= s@);
    assert(views(out@) + lines(s@) =~= lines(s@));
    while i < v.len()
        invariant
            v@ == s@,
            i <= v@.len(),
            views(out@) + lines(s@.skip(i as int)) == lines(s@),
        decreases v.len() - i,
    {
        let ghost rest = s@.skip(i as int);
        let k = next_char_pos(&v, '\n', i);
        proof {
            lemma_next_char_skip(s@, '\n', i as int);
        }
        let ghost before = out@;
        if k < v.len() {
            let line = &v[i..k];
            assert(line@ =~= rest.take(k - i));
            let n: usize = line.len();
            let cut = if n > 0 && line[n - 1] == '\r' {
                &line[0..n - 1]
            } else {
                line
            };
            assert(cut@ =~= strip_cr(rest.take(k - i)));
            let one = string_of(cut);
            out.push(one);
            assert(views(out@) =~= views(before) + seq![one@]);
            assert(rest.skip(k - i + 1) =~= s@.skip(k + 1));
            assert(views(before) + (seq![one@] + lines(s@.skip(k + 1))) =~= views(out@) + lines(
                s@.skip(k + 1),
            ));
            i = k + 1;
        } else {
            let line = &v[i..k];
            assert(line@ =~= rest);
            let one = string_of(line);
            out.push(one);
            assert(views(out@) =~= views(before) + seq![one@]);
            assert(s@.skip(k as int) =~= Seq::empty());
            assert(views(out@) + lines(s@.skip(k as int)) =~= views(before) + seq![one@]);
            i = k;
        }
    }
    assert(s@.skip(i as int) =~= Seq::empty());
    assert(views(out@) + lines(s@.skip(i as int)) =~= views(out@));
    out
}

/// The position of the first `c` at or after `from`, or the length of the slice.
pub fn next_char_pos(v: &[char], c: char, from: usize) -> (k: usize)
    requires
        from <= v@.len(),
    ensures
        k == next_char(v@, c, from as int),
        from <= k <= v@.len(),
        k < v@.len() ==> v@[k as int] == c,
        forall|j: int| from <= j < k ==> v@[j] != c,
{
    let mut k: usize = from;
    while k < v.len() && v[k] != c
        invariant
            from <= k <= v@.len(),
            next_char(v@, c, from as int) == next_char(v@, c, k as int),
            forall|j: int| from <= j < k ==> v@[j] != c,
        decreases v.len() - k,
    {
        k = k + 1;
    }
    k
}

/// Searching a suffix finds the same place, counted from the suffix.
pub proof fn lemma_next_char_skip(s: Seq<char>, c: char, i: int)
    requires
        0 <= i <= s.len(),
    ensures
        next_char(s.skip(i), c, 0) == next_char(s, c, i) - i,
{
    lemma_next_char_shift(s, c, i, 0);
}

proof fn lemma_next_char_shift(s: Seq<char>, c: char, i: int, k: int)
    requires
        0 <= i,
        0 <= k,
        i + k <= s.len(),
    ensures
        next_char(s.skip(i), c, k) == next_char(s, c, i + k) - i,
    decreases s.len() - i - k,
{
    if i + k < s.len() && s[i + k] != c {
        lemma_next_char_shift(s, c, i, k + 1);
    }
}

/// The strings of `v` with `sep` between neighbours.
pub fn joined(v: &Vec<String>, sep: &str) -> (r: String)
    ensures
        r@ == join(views(v@), sep@),
{
    let mut out = String::new();
    for i in 0..v.len()
        invariant
            out@ == join(views(v@).take(i as int), sep@),
    {
        assert(views(v@).take(i + 1).drop_last() =~= views(v@).take(i as int));
        if i > 0 {
            out.append(sep);
        } else {
            assert(out@ + views(v@)[0] =~= views(v@)[0]);
        }
        out.append(&v[i]);
    }
    assert(views(v@).take(v@.len() as int) =~= views(v@));
    out
}

/// The list of one string.
pub fn list1(a: &str) -> (r: Vec<String>)
    ensures
        views(r@) == seq![a@],
{
    let mut v: Vec<String> = Vec::new();
    v.push(a.to_owned());
    assert(views(v@) =~= seq![a@]);
    v
}

/// The list of two strings.
pub fn list2(a: &str, b: &str) -> (r: Vec<String>)
    ensures
        views(r@) == seq![a@, b@],
{
    let mut v = list1(a);
    let ghost before = v@;
    v.push(b.to_owned());
    assert(views(v@) =~= views(before).push(b@));
    v
}

/// The list of three strings.
pub fn list3(a: &str, b: &str, c: &str) -> (r: Vec<String>)
    ensures
        views(r@) == seq![a@, b@, c@],
{
    let mut v = list2(a, b);
    let ghost before = v@;
    v.push(c.to_owned());
    assert(views(v@) =~= views(before).push(c@));
    v
}

/// The list of four strings.
pub fn list4(a: &str, b: &str, c: &str, d: &str) -> (r: Vec<String>)
    ensures
        views(r@) == seq![a@, b@, c@, d@],
{
    let mut v = list3(a, b, c);
    let ghost before = v@;
    v.push(d.to_owned());
    assert(views(v@) =~= views(before).push(d@));
    v
}

/// The list of five strings.
pub fn list5(a: &str, b: &str, c: &str, d: &str, e: &str) -> (r: Vec<String>)
    ensures
        views(r@) == seq![a@, b@, c@, d@, e@],
{
    let mut v = list4(a, b, c, d);
    let ghost before = v@;
    v.push(e.to_owned());
    assert(views(v@) =~= views(before).push(e@));
    v
}

/// The list of six strings.
pub fn list6(a: &str, b: &str, c: &str, d: &str, e: &str, f: &str) -> (r: Vec<String>)
    ensures
        views(r@) == seq![a@, b@, c@, d@, e@, f@],
{
    let mut v = list5(a, b, c, d, e);
    let ghost before = v@;
    v.push(f.to_owned());
    assert(views(v@) =~= views(before).push(f@));
    v
}

// Case.

/// The ASCII lower-case form of a character.
pub fn to_lower_ascii(c: char) -> (r: char)
    ensures
        r == lower_ascii(c),
{
    if 'A' <= c && c <= 'Z' {
        let n: u8 = c as u8;
        (n + 32) as char
    } else {
        c
    }
}

/// Whether two strings are equal up to the case of ASCII letters.
pub fn same_ignore_case(a: &str, b: &str) -> (r: bool)
    ensures
        r == eq_ignore_case(a@, b@),
{
    let x = chars_of(a);
    let y = chars_of(b);
    if x.len() != y.len() {
        return false;
    }
    for i in 0..x.len()
        invariant
            x@ == a@,
            y@ == b@,
            x@.len() == y@.len(),
            forall|j: int| 0 <= j < i ==> lower_ascii(#[trigger] a@[j]) == lower_ascii(b@[j]),
    {
        if to_lower_ascii(x[i]) != to_lower_ascii(y[i]) {
            assert(lower_ascii(a@[i as int]) != lower_ascii(b@[i as int]));
            return false;
        }
    }
    true
}

// Numbers.

/// The decimal notation of a number.
pub fn dec_of(n: u64) -> (r: String)
    ensures
        r@ == dec(n as nat),
    decreases n,
{
    if n < 10 {
        let mut out = String::new();
        out.push((48 + n as u8) as char);
        assert(out@ =~= dec(n as nat));
        out
    } else {
        let mut out = dec_of(n / 10);
        out.push((48 + (n % 10) as u8) as char);
        out
    }
}

/// The decimal notation of an integer.
pub fn dec_int_of(n: i64) -> (r: String)
    ensures
        r@ == dec_int(n as int),
{
    if n < 0 {
        let mut out = String::new();
        out.push('-');
        assert(out@ =~= seq!['-']);
        let m: u64 = if n == i64::MIN {
            0x8000_0000_0000_0000u64
        } else {
            (-n) as u64
        };
        let rest = dec_of(m);
        out.append(&rest);
        out
    } else {
        dec_of(n as u64)
    }
}

/// The hexadecimal digit of a number below sixteen.
fn hex_digit_of(n: u8, upper: bool) -> (r: char)
    requires
        n < 16,
    ensures
        r == hex_digit(n as int, if upper {
            'A'
        } else {
            'a'
        }),
{
    if n < 10 {
        (48 + n) as char
    } else if upper {
        (65 + (n - 10)) as char
    } else {
        (97 + (n - 10)) as char
    }
}

/// Appends a byte in two hexadecimal digits.
pub fn push_hex(out: &mut String, b: u8, upper: bool)
    ensures
        final(out)@ == old(out)@ + hex_byte(b, if upper {
            'A'
        } else {
            'a'
        }),
{
    let ghost start = out@;
    out.push(hex_digit_of(b / 16, upper));
    out.push(hex_digit_of(b % 16, upper));
    assert(out@ =~= start + hex_byte(b, if upper {
        'A'
    } else {
        'a'
    }));
}

/// Bytes in hexadecimal notation, with capital letters or small ones.
pub fn hex_of(bytes: &[u8], upper: bool) -> (r: String)
    ensures
        r@ == hex(bytes@, if upper {
            'A'
        } else {
            'a'
        }),
{
    let mut out = String::new();
    for i in 0..bytes.len()
        invariant
            out@ == hex(bytes@.take(i as int), if upper {
                'A'
            } else {
                'a'
            }),
    {
        assert(bytes@.take(i + 1).drop_last() =~= bytes@.take(i as int));
        push_hex(&mut out, bytes[i], upper);
    }
    assert(bytes@.take(bytes@.len() as int) =~= bytes@);
    out
}

/// Whether a character is a hexadecimal digit.
pub fn is_hex_digit(c: char) -> (r: bool)
    ensures
        r == is_hex(c),
{
    ('0' <= c && c <= '9') || ('a' <= c && c <= 'f') || ('A' <= c && c <= 'F')
}

/// Whether characters are an identifier of the form 8-4-4-4-12.
pub fn uuid_chars(v: &[char]) -> (r: bool)
    ensures
        r == is_uuid(v@),
{
    if v.len() != 36 {
        return false;
    }
    for k in 0..36usize
        invariant
            v@.len() == 36,
            forall|j: int|
                0 <= j < k ==> if j == 8 || j == 13 || j == 18 || j == 23 {
                    #[trigger] v@[j] == '-'
                } else {
                    is_hex(v@[j])
                },
    {
        if k == 8 || k == 13 || k == 18 || k == 23 {
            if v[k] != '-' {
                return false;
            }
        } else if !is_hex_digit(v[k]) {
            return false;
        }
    }
    true
}

/// A text with its ASCII letters in lower case.
pub fn to_lowered(v: &[char]) -> (r: String)
    ensures
        r@ == lowered(v@),
{
    let mut out = String::new();
    for i in 0..v.len()
        invariant
            out@ == lowered(v@).take(i as int),
    {
        out.push(to_lower_ascii(v[i]));
        assert(lowered(v@).take(i + 1) =~= lowered(v@).take(i as int).push(lowered(v@)[i as int]));
    }
    assert(lowered(v@).take(v@.len() as int) =~= lowered(v@));
    out
}

/// Digits put behind a number never make it smaller.
proof fn lemma_dec_value_grows(s: Seq<char>, n: int)
    requires
        0 <= n <= s.len(),
        forall|i: int| 0 <= i < s.len() ==> is_digit(#[trigger] s[i]),
    ensures
        dec_value(s.take(n)) <= dec_value(s),
    decreases s.len() - n,
{
    if n < s.len() {
        lemma_dec_value_grows(s, n + 1);
        assert(s.take(n + 1).drop_last() =~= s.take(n));
        assert(is_digit(s[n]));
    } else {
        assert(s.take(n) =~= s);
    }
}

/// The number that decimal digits stand for, where it fits.
pub fn parse_dec(v: &[char]) -> (r: Option<u32>)
    requires
        forall|i: int| 0 <= i < v@.len() ==> is_digit(#[trigger] v@[i]),
    ensures
        match r {
            Some(n) => dec_value(v@) == n,
            None => dec_value(v@) > u32::MAX,
        },
{
    let mut n: u64 = 0;
    for i in 0..v.len()
        invariant
            forall|j: int| 0 <= j < v@.len() ==> is_digit(#[trigger] v@[j]),
            n == dec_value(v@.take(i as int)),
            n <= u32::MAX,
    {
        assert(v@.take(i + 1).drop_last() =~= v@.take(i as int));
        assert(is_digit(v@[i as int]));
        n = n * 10 + (v[i] as u32 - 48) as u64;
        if n > 0xffff_ffff {
            proof {
                lemma_dec_value_grows(v@, i + 1);
            }
            return None;
        }
    }
    assert(v@.take(v@.len() as int) =~= v@);
    Some(n as u32)
}

/// The last `n` characters of a slice, or all of it.
pub fn last_chars(v: &[char], n: usize) -> (r: &[char])
    ensures
        r@ == last_part(v@, n as int),
{
    if v.len() <= n {
        v
    } else {
        let t = &v[v.len() - n..v.len()];
        assert(t@ =~= v@.skip(v@.len() - n));
        t
    }
}

/// Hexadecimal notation takes two characters for a byte.
pub proof fn lemma_hex_len(bytes: Seq<u8>, a: char)
    ensures
        hex(bytes, a).len() == 2 * bytes.len(),
    decreases bytes.len(),
{
    if bytes.len() > 0 {
        lemma_hex_len(bytes.drop_last(), a);
    }
}

// Laws.

/// What is found is there and nothing before it is; where nothing is found,
/// nothing is there.
pub proof fn first_place_is_found(s: Seq<char>, p: Seq<char>)
    ensures
        match find(s, p) {
            Some(k) => {
                &&& 0 <= k && k + p.len() <= s.len()
                &&& s.subrange(k, k + p.len()) == p
                &&& forall|j: int|
                    0 <= j < k ==> #[trigger] s.subrange(j, j + p.len()) != p
            },
            None => forall|j: int|
                0 <= j && j + p.len() <= s.len() ==> #[trigger] s.subrange(j, j + p.len()) != p,
        },
        has(s, p) <==> exists|j: int|
            0 <= j && j + p.len() <= s.len() && #[trigger] s.subrange(j, j + p.len()) == p,
{
    lemma_find_from(s, p, 0);
    match find(s, p) {
        Some(k) => {
            assert forall|j: int| 0 <= j < k implies #[trigger] s.subrange(j, j + p.len()) != p by {
                assert(!occurs_at(s, p, j));
            }
        },
        None => {
            assert forall|j: int| 0 <= j && j + p.len() <= s.len() implies #[trigger] s.subrange(
                j,
                j + p.len(),
            ) != p by {
                assert(!occurs_at(s, p, j));
            }
        },
    }
}

/// Trimming takes away white space and nothing else, all of it on either side.
pub proof fn only_white_space_is_trimmed(s: Seq<char>) -> (bounds: (int, int))
    ensures
        0 <= bounds.0 <= bounds.1 <= s.len(),
        trim(s) == s.subrange(bounds.0, bounds.1),
        forall|i: int| 0 <= i < bounds.0 ==> is_space(#[trigger] s[i]),
        forall|i: int| bounds.1 <= i < s.len() ==> is_space(#[trigger] s[i]),
        bounds.0 < bounds.1 ==> !is_space(s[bounds.0]) && !is_space(s[bounds.1 - 1]),
    decreases s.len(),
{
    if s.len() > 0 && is_space(s[0]) {
        let t = s.skip(1);
        let b = only_white_space_is_trimmed(t);
        assert(t.subrange(b.0, b.1) =~= s.subrange(b.0 + 1, b.1 + 1));
        assert forall|i: int| 0 <= i < b.0 + 1 implies is_space(#[trigger] s[i]) by {
            if i > 0 {
                assert(is_space(t[i - 1]));
            }
        }
        assert forall|i: int| b.1 + 1 <= i < s.len() implies is_space(#[trigger] s[i]) by {
            assert(is_space(t[i - 1]));
        }
        (b.0 + 1, b.1 + 1)
    } else if s.len() > 0 && is_space(s.last()) {
        let t = s.drop_last();
        assert(trim_start(s) == s && trim_start(t) == t);
        let b = only_white_space_is_trimmed(t);
        assert(t.subrange(b.0, b.1) =~= s.subrange(b.0, b.1));
        assert forall|i: int| 0 <= i < b.0 implies is_space(#[trigger] s[i]) by {
            assert(is_space(t[i]));
        }
        assert forall|i: int| b.1 <= i < s.len() implies is_space(#[trigger] s[i]) by {
            if i < t.len() {
                assert(is_space(t[i]));
            }
        }
        b
    } else {
        assert(s.subrange(0, s.len() as int) =~= s);
        (0, s.len() as int)
    }
}

/// White space is what ends a word in any writing: blanks, tabs and line ends
/// among them, letters, digits and signs not.
pub proof fn blanks_are_white_space(c: char)
    ensures
        c == ' ' || c == '\t' || c == '\n' || c == '\r' ==> is_space(c),
        0x21 <= c as u32 <= 0x7e ==> !is_space(c),
        0x400 <= c as u32 <= 0x4ff ==> !is_space(c),
{
}

/// A number is read from its decimal notation, which holds digits only and
/// begins with a zero only where it is zero.
pub proof fn decimal_notation_is_read(n: nat)
    ensures
        dec_value(dec(n)) == n,
        dec(n).len() > 0,
        forall|i: int| 0 <= i < dec(n).len() ==> '0' <= #[trigger] dec(n)[i] <= '9',
        n > 0 ==> dec(n)[0] != '0',
        dec(n).last() as int == '0' as int + n % 10,
    decreases n,
{
    if n < 10 {
        assert(dec(n).drop_last() =~= Seq::empty());
        assert(dec_value(dec(n).drop_last()) == 0);
    } else {
        decimal_notation_is_read(n / 10);
        assert(dec(n).drop_last() =~= dec(n / 10));
        assert forall|i: int| 0 <= i < dec(n).len() implies '0' <= #[trigger] dec(n)[i] <= '9' by {
            if i < dec(n / 10).len() {
                assert(dec(n)[i] == dec(n / 10)[i]);
            }
        }
        assert(dec(n)[0] == dec(n / 10)[0]);
    }
}

/// Different numbers have different notations.
pub proof fn notations_are_distinct(a: nat, b: nat)
    requires
        a != b,
    ensures
        dec(a) != dec(b),
{
    decimal_notation_is_read(a);
    decimal_notation_is_read(b);
}

/// Lower case changes the capital letters of ASCII and nothing else, character
/// by character; texts that differ in such case only, and no others, are equal
/// up to case.
pub proof fn capital_letters_are_lowered(s: Seq<char>, t: Seq<char>)
    ensures
        lowered(s).len() == s.len(),
        forall|i: int|
            0 <= i < s.len() ==> (#[trigger] lowered(s)[i]) as int == if 'A' <= s[i] <= 'Z' {
                s[i] as int + 32
            } else {
                s[i] as int
            },
        eq_ignore_case(s, t) <==> lowered(s) == lowered(t),
{
    assert forall|i: int| 0 <= i < s.len() implies (#[trigger] lowered(s)[i]) as int == if 'A'
        <= s[i] <= 'Z' {
        s[i] as int + 32
    } else {
        s[i] as int
    } by {
        assert(lowered(s)[i] == lower_ascii(s[i]));
    }
    if eq_ignore_case(s, t) {
        assert(lowered(s) =~= lowered(t));
    }
    if lowered(s) == lowered(t) {
        assert(lowered(s).len() == s.len() && lowered(t).len() == t.len());
        assert forall|i: int| 0 <= i < s.len() implies lower_ascii(#[trigger] s[i])
            == lower_ascii(t[i]) by {
            assert(lowered(s)[i] == lower_ascii(s[i]));
            assert(lowered(t)[i] == lower_ascii(t[i]));
        }
    }
}

/// The text is made of lines that hold no line feed and do not end with a
/// carriage return.
pub open spec fn are_lines(v: Seq<Seq<char>>) -> bool {
    forall|i: int|
        0 <= i < v.len() ==> !(#[trigger] v[i]).contains('\n') && (v[i].len() > 0 ==> v[i].last()
            != '\r')
}

/// Lines that are written one behind the other, each with a line feed at its
/// end, with or without a carriage return before it, are read as they are.
pub proof fn written_lines_are_read(v: Seq<Seq<char>>, end: Seq<char>)
    requires
        are_lines(v),
        end == seq!['\n'] || end == seq!['\r', '\n'],
    ensures
        lines(v.fold_right(|line: Seq<char>, rest: Seq<char>| line + end + rest, Seq::empty()))
            == v,
    decreases v.len(),
{
    let f = |line: Seq<char>, rest: Seq<char>| line + end + rest;
    let text = v.fold_right(f, Seq::empty());
    if v.len() == 0 {
        assert(lines(text) =~= v);
    } else {
        let tail = v.drop_first();
        assert forall|i: int| 0 <= i < tail.len() implies !(#[trigger] tail[i]).contains('\n') && (
        tail[i].len() > 0 ==> tail[i].last() != '\r') by {
            assert(tail[i] == v[i + 1]);
        }
        written_lines_are_read(tail, end);
        let rest = tail.fold_right(f, Seq::empty());
        v.lemma_fold_right_alt(f, Seq::empty());
        tail.lemma_fold_right_alt(f, Seq::empty());
        assert(text == v[0] + end + rest);
        let k = v[0].len() + end.len() - 1;
        assert(text[k] == '\n');
        assert forall|j: int| 0 <= j < k implies text[j] != '\n' by {
            if j < v[0].len() {
                assert(v[0].contains(v[0][j]));
            }
        }
        lemma_next_char_is(text, '\n', 0, k);
        assert(text.skip(k + 1) =~= rest);
        assert(strip_cr(text.take(k)) =~= v[0]) by {
            if end == seq!['\n'] {
                assert(text.take(k) =~= v[0]);
            } else {
                assert(text.take(k) =~= v[0].push('\r'));
                assert(text.take(k).drop_last() =~= v[0]);
            }
        }
        assert(seq![v[0]] + tail =~= v);
    }
}

proof fn lemma_next_char_is(s: Seq<char>, c: char, i: int, k: int)
    requires
        0 <= i <= k < s.len(),
        s[k] == c,
        forall|j: int| i <= j < k ==> s[j] != c,
    ensures
        next_char(s, c, i) == k,
    decreases k - i,
{
    if i < k {
        lemma_next_char_is(s, c, i + 1, k);
    }
}

/// Bytes are written in two hexadecimal digits each, the higher one first.
pub proof fn bytes_are_written_in_two_digits(bytes: Seq<u8>, a: char, i: int)
    requires
        0 <= i < bytes.len(),
        a == 'a' || a == 'A',
    ensures
        hex(bytes, a).len() == 2 * bytes.len(),
        hex(bytes, a)[2 * i] as int == if bytes[i] / 16 < 10 {
            '0' as int + bytes[i] as int / 16
        } else {
            a as int + bytes[i] as int / 16 - 10
        },
        hex(bytes, a)[2 * i + 1] as int == if bytes[i] % 16 < 10 {
            '0' as int + bytes[i] as int % 16
        } else {
            a as int + bytes[i] as int % 16 - 10
        },
    decreases bytes.len(),
{
    lemma_hex_len(bytes, a);
    lemma_hex_len(bytes.drop_last(), a);
    let h = hex(bytes, a);
    let h0 = hex(bytes.drop_last(), a);
    if i < bytes.len() - 1 {
        bytes_are_written_in_two_digits(bytes.drop_last(), a, i);
        assert(h[2 * i] == h0[2 * i] && h[2 * i + 1] == h0[2 * i + 1]);
    } else {
        assert(h[2 * i] == hex_byte(bytes[i], a)[0]);
        assert(h[2 * i + 1] == hex_byte(bytes[i], a)[1]);
    }
}

/// An identifier has 36 characters: four dashes, and hexadecimal digits in five
/// groups of 8, 4, 4, 4 and 12 between them.
pub proof fn identifiers_have_five_groups(s: Seq<char>)
    ensures
        is_uuid(s) <==> s.len() == 36 && s[8] == '-' && s[13] == '-' && s[18] == '-' && s[23] == '-'
            && forall|k: int|
            0 <= k < 36 && k != 8 && k != 13 && k != 18 && k != 23 ==> '0' <= #[trigger] s[k] <= '9'
                || 'a' <= s[k] <= 'f' || 'A' <= s[k] <= 'F',
{
}

/// A text holds its parts.
pub proof fn lemma_has_part(a: Seq<char>, p: Seq<char>, b: Seq<char>)
    ensures
        has(a + p + b, p),
{
    let s = a + p + b;
    let k = a.len() as int;
    assert(s.subrange(k, k + p.len()) =~= p);
    assert(occurs_at(s, p, k));
    lemma_find_from(s, p, 0);
}

/// The last place of a part is found: one behind which it stands nowhere.
pub proof fn last_place_is_found(s: Seq<char>, p: Seq<char>, k: int)
    requires
        forall|j: int| k < j ==> !#[trigger] occurs_at(s, p, j),
    ensures
        occurs_at(s, p, k) ==> rfind(s, p) == Some(k) && rsplit_once(s, p) == Some(
            (s.take(k), s.skip(k + p.len())),
        ),
        k < 0 ==> rfind(s, p) is None && rsplit_once(s, p) is None,
{
    lemma_last_place(s, p, k, s.len() - p.len());
}

proof fn lemma_last_place(s: Seq<char>, p: Seq<char>, k: int, i: int)
    requires
        forall|j: int| k < j ==> !#[trigger] occurs_at(s, p, j),
    ensures
        occurs_at(s, p, k) && k <= i ==> rfind_from(s, p, i) == Some(k),
        k < 0 ==> rfind_from(s, p, i) is None,
    decreases i + 1,
{
    if i >= 0 && i != k {
        lemma_last_place(s, p, k, i - 1);
    }
}

/// White space around a text is trimmed, and nothing of the text.
pub proof fn white_space_around_is_trimmed(a: Seq<char>, s: Seq<char>, b: Seq<char>)
    requires
        forall|i: int| 0 <= i < a.len() ==> is_space(#[trigger] a[i]),
        forall|i: int| 0 <= i < b.len() ==> is_space(#[trigger] b[i]),
        s.len() > 0 ==> !is_space(s[0]) && !is_space(s.last()),
    ensures
        trim(a + s + b) == s,
{
    let w = a + s + b;
    let n = a.len() as int;
    let (x, y) = only_white_space_is_trimmed(w);
    if s.len() > 0 {
        assert(w[n] == s[0]);
        assert(w[n + s.len() - 1] == s.last());
        if x < n {
            assert(w[x] == a[x]);
        }
        if y > n + s.len() {
            assert(w[y - 1] == b[y - 1 - n - s.len()]);
        }
        assert(x == n && y == n + s.len());
        assert(w.subrange(x, y) =~= s);
    } else {
        if x < y {
            if x < n {
                assert(w[x] == a[x]);
            } else {
                assert(w[x] == b[x - n]);
            }
        }
        assert(trim(w) =~= s);
    }
}

/// A character that is replaced by another leaves the length as it is; every
/// such character is replaced, and no other.
pub proof fn every_character_is_replaced(s: Seq<char>, p: Seq<char>, t: Seq<char>, i: int)
    requires
        p.len() == 1,
        t.len() == 1,
    ensures
        replace(s, p, t).len() == s.len(),
        0 <= i < s.len() ==> replace(s, p, t)[i] == if s[i] == p[0] {
            t[0]
        } else {
            s[i]
        },
    decreases s.len(),
{
    if s.len() > 0 {
        every_character_is_replaced(s.skip(1), p, t, i - 1);
        if s[0] == p[0] {
            assert(s.take(1) =~= p);
        } else if starts(s, p) {
            assert(s.take(1)[0] == s[0]);
        }
    }
}

/// Texts are joined in their order, with the separator between each two.
pub proof fn texts_are_joined_in_order(v: Seq<Seq<char>>, more: Seq<char>, sep: Seq<char>)
    ensures
        join(Seq::<Seq<char>>::empty(), sep).len() == 0,
        join(seq![more], sep) == more,
        v.len() > 0 ==> join(v.push(more), sep) == join(v, sep) + sep + more,
{
    assert(v.push(more).drop_last() =~= v);
}

/// The beginning of a text is all of it or as long as asked for.
pub proof fn beginning_is_as_long_as_asked(s: Seq<char>, n: int)
    requires
        n >= 0,
    ensures
        s.len() <= n ==> first(s, n) == s,
        s.len() > n ==> first(s, n) == s.take(n),
{
}

/// Characters of a set are taken from the end of a text, as many as there are.
pub proof fn end_of_a_set_is_trimmed(s: Seq<char>, set: Seq<char>)
    ensures
        trim_end_of(s, set).len() <= s.len(),
        trim_end_of(s, set) == s.take(trim_end_of(s, set).len() as int),
        trim_end_of(s, set).len() > 0 ==> !set.contains(trim_end_of(s, set).last()),
        forall|i: int|
            trim_end_of(s, set).len() <= i < s.len() ==> set.contains(#[trigger] s[i]),
    decreases s.len(),
{
    if s.len() > 0 && set.contains(s.last()) {
        end_of_a_set_is_trimmed(s.drop_last(), set);
        let k = trim_end_of(s, set).len() as int;
        assert(s.drop_last().take(k) =~= s.take(k));
        assert forall|i: int| k <= i < s.len() implies set.contains(#[trigger] s[i]) by {
            if i < s.len() - 1 {
                assert(set.contains(s.drop_last()[i]));
            }
        }
    } else {
        assert(s.take(s.len() as int) =~= s);
    }
}

/// The views of texts are those of each of them, in their order.
pub proof fn views_are_taken_one_by_one(v: Seq<String>, i: int, o: Option<String>)
    ensures
        views(v).len() == v.len(),
        0 <= i < v.len() ==> views(v)[i] == v[i]@,
        o matches Some(s) ==> opt_view(o) == Some(s@),
        o is None ==> opt_view(o) is None,
{
}

/// Small letters of ASCII are raised to capital ones, and nothing else.
pub proof fn small_letters_are_raised(s: Seq<char>, i: int)
    requires
        0 <= i < s.len(),
    ensures
        raised(s).len() == s.len(),
        'a' <= s[i] <= 'z' ==> raised(s)[i] as u32 == s[i] as u32 - 32,
        !('a' <= s[i] <= 'z') ==> raised(s)[i] == s[i],
        is_ascii(s) ==> upper(s) == raised(s) && lower(s) == lowered(s),
{
}

/// The end of a text is all of it or as long as asked for.
pub proof fn end_is_as_long_as_asked(s: Seq<char>, n: int)
    requires
        n >= 0,
    ensures
        s.len() <= n ==> last_part(s, n) == s,
        s.len() > n ==> last_part(s, n) == s.subrange(s.len() - n, s.len() as int),
{
    if s.len() > n {
        assert(s.skip(s.len() - n) =~= s.subrange(s.len() - n, s.len() as int));
    }
}

/// A text begins and ends with what stands there.
pub proof fn beginning_and_end_are_compared(p: Seq<char>, s: Seq<char>)
    ensures
        starts(p + s, p),
        ends(s + p, p),
        starts(s, p) ==> s == p + s.skip(p.len() as int),
        ends(s, p) ==> s == s.take(s.len() - p.len()) + p,
{
    assert((p + s).take(p.len() as int) =~= p);
    assert((s + p).skip(s.len() as int) =~= p);
    if starts(s, p) {
        assert(s =~= s.take(p.len() as int) + s.skip(p.len() as int));
    }
    if ends(s, p) {
        assert(s =~= s.take(s.len() - p.len()) + s.skip(s.len() - p.len()));
    }
}

/// A text is cut at the first place of a part, and the two pieces and the part
/// are the text again.
pub proof fn text_is_cut_at_the_first_place(s: Seq<char>, p: Seq<char>)
    ensures
        match split_once(s, p) {
            Some((a, b)) => s == a + p + b && find(s, p) == Some(a.len() as int),
            None => find(s, p) is None,
        },
{
    first_place_is_found(s, p);
    if let Some(k) = find(s, p) {
        assert(s =~= s.take(k) + s.subrange(k, k + p.len()) + s.skip(k + p.len()));
    }
}

/// A number has a sign where it is negative, and the notation of its amount.
pub proof fn negative_numbers_have_a_sign(n: nat)
    ensures
        dec_int(n as int) == dec(n),
        n > 0 ==> dec_int(-(n as int)) == seq!['-'] + dec(n),
{
}

} // verus!
