//! Committing an export and pushing it: the git commands of each step, what
//! each outcome leads to, and the texts that go to the log, which never show
//! a password.

use vstd::prelude::*;

use crate::text;

verus! {

/// How to authorise at the remote repository.
#[derive(Debug, Clone)]
pub enum GitAuth {
    /// The credentials of the environment: a helper, a key, the domain.
    Domain,
    /// An explicit login, put into the address of the remote.
    UserPassword { user: String, password: String },
}

/// What a synchronisation did.
#[derive(Debug, Clone, Copy, PartialEq, Eq, Structural)]
pub struct GitPushResult {
    /// Whether there was anything to commit.
    pub committed: bool,
    /// Whether the push was made.
    pub pushed: bool,
}

/// Settings that are handed to every git command.
#[derive(Debug, Clone, PartialEq, Eq)]
pub struct GitOptions {
    /// The value of `core.autocrlf`; empty leaves the machine's setting.
    pub autocrlf: String,
}

impl Default for GitOptions {
    fn default() -> (r: Self)
        ensures
            r.autocrlf@ == "false"@,
    {
        GitOptions { autocrlf: "false".to_owned() }
    }
}

impl GitOptions {
    /// The settings from the value of the configuration.
    pub fn new(autocrlf: &str) -> (r: Self)
        ensures
            r.autocrlf@ == text::trim(autocrlf@),
    {
        GitOptions { autocrlf: text::trimmed(autocrlf) }
    }
}

/// The `-c` arguments of every git command: `core.autocrlf` where it is set,
/// and `gc.auto=0` always.
pub open spec fn config_arg_list(autocrlf: Seq<char>) -> Seq<Seq<char>> {
    let value = text::trim(autocrlf);
    if value.len() == 0 {
        seq!["-c"@, "gc.auto=0"@]
    } else {
        seq!["-c"@, "core.autocrlf="@ + value, "-c"@, "gc.auto=0"@]
    }
}

/// The `-c` arguments of every git command.
pub fn config_args(opts: &GitOptions) -> (r: Vec<String>)
    ensures
        text::views(r@) == config_arg_list(opts.autocrlf@),
{
    let mut args: Vec<String> = Vec::new();
    let autocrlf = text::trimmed(&opts.autocrlf);
    if !autocrlf.as_str().is_empty() {
        args.push("-c".to_owned());
        let mut setting = "core.autocrlf=".to_owned();
        setting.append(&autocrlf);
        args.push(setting);
    }
    args.push("-c".to_owned());
    args.push("gc.auto=0".to_owned());
    assert(text::views(args@) =~= config_arg_list(opts.autocrlf@));
    args
}

/// The arguments before those of the command itself: the directory of the
/// repository and the settings.
pub fn command_args(repo: &str, opts: &GitOptions) -> (r: Vec<String>)
    ensures
        text::views(r@) == seq!["-C"@, repo@] + config_arg_list(opts.autocrlf@),
{
    let mut args: Vec<String> = Vec::new();
    args.push("-C".to_owned());
    args.push(repo.to_owned());
    let mut rest = config_args(opts);
    let ghost tail = rest@;
    args.append(&mut rest);
    assert(text::views(args@) =~= seq!["-C"@, repo@] + text::views(tail));
    args
}

// Addresses and passwords.

/// The code of a character in the login part of an address. A percent sign is
/// left as it is, so what stands in code already is not encoded once more.
pub open spec fn encoded_char(c: char) -> Seq<char> {
    if c == '@' {
        "%40"@
    } else if c == ':' {
        "%3A"@
    } else if c == '/' {
        "%2F"@
    } else if c == '#' {
        "%23"@
    } else if c == '?' {
        "%3F"@
    } else if c == ' ' {
        "%20"@
    } else {
        seq![c]
    }
}

/// A login or password as the login part of an address writes it.
pub open spec fn encoded(s: Seq<char>) -> Seq<char>
    decreases s.len(),
{
    if s.len() == 0 {
        Seq::empty()
    } else {
        encoded(s.drop_last()) + encoded_char(s.last())
    }
}

/// A login or password as the login part of an address writes it.
pub fn url_encode(s: &str) -> (r: String)
    ensures
        r@ == encoded(s@),
{
    let v = text::chars_of(s);
    let mut out = String::new();
    for i in 0..v.len()
        invariant
            v@ == s@,
            out@ == encoded(s@.take(i as int)),
    {
        let c = v[i];
        assert(s@.take(i + 1).drop_last() =~= s@.take(i as int));
        if c == '@' {
            out.append("%40");
        } else if c == ':' {
            out.append("%3A");
        } else if c == '/' {
            out.append("%2F");
        } else if c == '#' {
            out.append("%23");
        } else if c == '?' {
            out.append("%3F");
        } else if c == ' ' {
            out.append("%20");
        } else {
            out.push(c);
            assert(out@ =~= encoded(s@.take(i as int)) + seq![c]);
        }
    }
    assert(s@.take(s@.len() as int) =~= s@);
    out
}

/// An address without its scheme and without the login in it.
pub open spec fn without_login(rest: Seq<char>) -> Seq<char> {
    match text::find(rest, "@"@) {
        Some(at) => match text::find(rest, "/"@) {
            Some(slash) => if at < slash {
                rest.skip(at + 1)
            } else {
                rest
            },
            None => rest.skip(at + 1),
        },
        None => rest,
    }
}

/// An address with the given login in place of any that it has. An address
/// without `://` has no place for one.
pub open spec fn with_login(url: Seq<char>, user: Seq<char>, password: Seq<char>) -> Seq<char> {
    let u = text::trim(url);
    match text::find(u, "://"@) {
        None => u,
        Some(p) => u.take(p + 3) + encoded(user) + ":"@ + encoded(password) + "@"@ + without_login(
            u.skip(p + 3),
        ),
    }
}

/// An address without the login in it.
fn drop_login(rest: &[char]) -> (r: &[char])
    ensures
        r@ == without_login(rest@),
{
    proof {
        reveal_strlit("@");
        reveal_strlit("/");
    }
    let at_sign = text::chars_of("@");
    let slash_sign = text::chars_of("/");
    let n: usize = rest.len();
    match text::find_chars(rest, &at_sign, 0) {
        Some(at) => {
            let cut = match text::find_chars(rest, &slash_sign, 0) {
                Some(slash) => at < slash,
                None => true,
            };
            if cut {
                let t = &rest[at + 1..n];
                assert(t@ =~= rest@.skip(at + 1));
                t
            } else {
                rest
            }
        },
        None => rest,
    }
}

/// An address with the given login in place of any that it has.
pub fn inject_credentials(url: &str, user: &str, password: &str) -> (r: String)
    ensures
        r@ == with_login(url@, user@, password@),
{
    let whole = text::chars_of(url);
    let u = text::trim_chars(&whole);
    let mark = text::chars_of("://");
    proof {
        reveal_strlit("://");
    }
    let n: usize = u.len();
    match text::find_chars(u, &mark, 0) {
        None => text::string_of(u),
        Some(p) => {
            let scheme = &u[0..p + 3];
            assert(scheme@ =~= u@.take(p + 3));
            let rest = &u[p + 3..n];
            assert(rest@ =~= u@.skip(p + 3));
            let mut out = text::string_of(scheme);
            let enc_user = url_encode(user);
            out.append(&enc_user);
            out.append(":");
            let enc_password = url_encode(password);
            out.append(&enc_password);
            out.append("@");
            let tail = text::string_of(drop_login(rest));
            out.append(&tail);
            out
        },
    }
}

/// A text with a password hidden, in plain and in encoded form.
pub open spec fn without_secret(text: Seq<char>, secret: Seq<char>) -> Seq<char> {
    if secret.len() == 0 {
        text
    } else {
        text::replace(text::replace(text, secret, "***"@), encoded(secret), "***"@)
    }
}

/// A text with a password hidden, in plain and in encoded form. An empty
/// password leaves the text as it is.
pub fn mask_secret(text: &str, secret: &str) -> (r: String)
    ensures
        r@ == without_secret(text@, secret@),
{
    if secret.is_empty() {
        return text.to_owned();
    }
    let plain = text::replaced(text, secret, "***");
    let enc = url_encode(secret);
    proof {
        lemma_encoded_len(secret@);
    }
    text::replaced(&plain, &enc, "***")
}

/// Encoding never makes a text shorter.
proof fn lemma_encoded_len(s: Seq<char>)
    ensures
        encoded(s).len() >= s.len(),
    decreases s.len(),
{
    reveal_encoded_literals();
    if s.len() > 0 {
        lemma_encoded_len(s.drop_last());
    }
}

proof fn reveal_encoded_literals()
    ensures
        "%40"@ =~= seq!['%', '4', '0'],
        "%3A"@ =~= seq!['%', '3', 'A'],
        "%2F"@ =~= seq!['%', '2', 'F'],
        "%23"@ =~= seq!['%', '2', '3'],
        "%3F"@ =~= seq!['%', '3', 'F'],
        "%20"@ =~= seq!['%', '2', '0'],
{
    reveal_strlit("%40");
    reveal_strlit("%3A");
    reveal_strlit("%2F");
    reveal_strlit("%23");
    reveal_strlit("%3F");
    reveal_strlit("%20");
}

/// The length of the part of an address that names the host: up to the first
/// slash or white space.
pub open spec fn authority_len(s: Seq<char>) -> int
    decreases s.len(),
{
    if s.len() == 0 || s[0] == '/' || text::is_space(s[0]) {
        0
    } else {
        1 + authority_len(s.skip(1))
    }
}

/// The host part of an address with the password in it hidden: what stands
/// between the first colon and the first `@` after it.
pub open spec fn masked_authority(a: Seq<char>) -> Seq<char> {
    match (text::find(a, "@"@), text::find(a, ":"@)) {
        (Some(at), Some(colon)) => if colon < at {
            a.take(colon) + ":***"@ + a.skip(at)
        } else {
            a
        },
        _ => a,
    }
}

/// A text with the passwords of all the addresses in it hidden.
pub open spec fn masked_urls(s: Seq<char>) -> Seq<char>
    decreases s.len(),
{
    match text::find(s, "://"@) {
        None => s,
        Some(p) => {
            let rest = s.skip(p + 3);
            let n = authority_len(rest);
            if 0 <= p && p + 3 <= s.len() && 0 <= n <= rest.len() {
                s.take(p + 3) + masked_authority(rest.take(n)) + masked_urls(rest.skip(n))
            } else {
                s
            }
        },
    }
}

proof fn lemma_authority_len(s: Seq<char>)
    ensures
        0 <= authority_len(s) <= s.len(),
    decreases s.len(),
{
    if s.len() > 0 {
        lemma_authority_len(s.skip(1));
    }
}

fn find_authority_end(v: &[char]) -> (n: usize)
    ensures
        n == authority_len(v@),
        n <= v@.len(),
{
    let mut n: usize = 0;
    assert(v@.skip(0) =~= v@);
    while n < v.len() && v[n] != '/' && !text::is_white(v[n])
        invariant
            n <= v@.len(),
            n + authority_len(v@.skip(n as int)) == authority_len(v@),
        decreases v.len() - n,
    {
        assert(v@.skip(n as int).skip(1) =~= v@.skip(n + 1));
        n = n + 1;
    }
    n
}

fn mask_authority(a: &[char]) -> (r: String)
    ensures
        r@ == masked_authority(a@),
{
    let at_sign = text::chars_of("@");
    let colon_sign = text::chars_of(":");
    let n: usize = a.len();
    if let Some(at) = text::find_chars(a, &at_sign, 0) {
        if let Some(colon) = text::find_chars(a, &colon_sign, 0) {
            if colon < at {
                let head = &a[0..colon];
                assert(head@ =~= a@.take(colon as int));
                let tail = &a[at..n];
                assert(tail@ =~= a@.skip(at as int));
                let mut out = text::string_of(head);
                out.append(":***");
                let rest = text::string_of(tail);
                out.append(&rest);
                return out;
            }
        }
    }
    text::string_of(a)
}

/// A text with the passwords of all the addresses in it hidden.
pub fn mask_url_creds(text: &str) -> (r: String)
    ensures
        r@ == masked_urls(text@),
{
    let v = text::chars_of(text);
    let mark = text::chars_of("://");
    proof {
        reveal_strlit("://");
    }
    let mut out = String::new();
    let mut i: usize = 0;
    let n: usize = v.len();
    assert(v@.skip(0) =~= text@);
    assert(out@ + masked_urls(text@) =~= masked_urls(text@));
    loop
        invariant
            v@ == text@,
            n == v@.len(),
            mark@ == "://"@,
            mark@.len() == 3,
            i <= n,
            out@ + masked_urls(text@.skip(i as int)) == masked_urls(text@),
        decreases n - i,
    {
        let ghost before = out@;
        let tail = &v[i..n];
        assert(tail@ =~= text@.skip(i as int));
        match text::find_chars(tail, &mark, 0) {
            None => {
                let rest = text::string_of(tail);
                out.append(&rest);
                return out;
            },
            Some(p) => {
                let m: usize = tail.len();
                let head = &tail[0..p + 3];
                assert(head@ =~= tail@.take(p + 3));
                let rest = &tail[p + 3..m];
                assert(rest@ =~= tail@.skip(p + 3));
                let k = find_authority_end(rest);
                let authority = &rest[0..k];
                assert(authority@ =~= rest@.take(k as int));
                let head_text = text::string_of(head);
                let shown = mask_authority(authority);
                out.append(&head_text);
                out.append(&shown);
                assert(rest@.skip(k as int) =~= text@.skip(i + p + 3 + k));
                assert(before + (head@ + shown@ + masked_urls(rest@.skip(k as int))) =~= out@
                    + masked_urls(rest@.skip(k as int)));
                i = i + p + 3 + k;
            },
        }
    }
}

/// The trimmed lines of a text that are not empty.
pub open spec fn meaningful(lines: Seq<Seq<char>>) -> Seq<Seq<char>>
    decreases lines.len(),
{
    if lines.len() == 0 {
        Seq::empty()
    } else {
        let before = meaningful(lines.drop_last());
        let line = text::trim(lines.last());
        if line.len() == 0 {
            before
        } else {
            before.push(line)
        }
    }
}

/// The last `n` items of a list, or all of them.
pub open spec fn last_items(v: Seq<Seq<char>>, n: int) -> Seq<Seq<char>> {
    if v.len() <= n {
        v
    } else {
        v.skip(v.len() - n)
    }
}

/// A text cut to 300 characters, with an ellipsis where something was cut.
pub open spec fn shortened(s: Seq<char>) -> Seq<char> {
    if s.len() > 300 {
        s.take(300) + "…"@
    } else {
        s
    }
}

/// The last three meaningful lines of the output of git, for an error text.
pub open spec fn tail_of(text: Seq<char>) -> Seq<char> {
    shortened(text::join(last_items(meaningful(text::lines(text)), 3), "; "@))
}

/// The last three meaningful lines of the output of git, joined by `"; "` and
/// cut to 300 characters.
pub fn error_tail(text: &str) -> (r: String)
    ensures
        r@ == tail_of(text@),
{
    let lines = text::lines_of(text);
    let ghost all = text::views(lines@);
    let mut kept: Vec<String> = Vec::new();
    for i in 0..lines.len()
        invariant
            all == text::views(lines@),
            text::views(kept@) == meaningful(all.take(i as int)),
    {
        assert(all.take(i + 1).drop_last() =~= all.take(i as int));
        let line = text::trimmed(&lines[i]);
        if !line.as_str().is_empty() {
            let ghost before = kept@;
            kept.push(line);
            assert(text::views(kept@) =~= text::views(before).push(line@));
        }
    }
    assert(all.take(all.len() as int) =~= all);
    let n: usize = kept.len();
    let start: usize = if n > 3 {
        n - 3
    } else {
        0
    };
    let ghost kept_view = text::views(kept@);
    let last = kept.split_off(start);
    assert(text::views(last@) =~= last_items(kept_view, 3));
    let tail = text::joined(&last, "; ");
    let v = text::chars_of(&tail);
    if v.len() > 300 {
        let mut cut = text::first_chars(&tail, 300);
        cut.append("…");
        cut
    } else {
        tail
    }
}

// Laws.

/// The mask stands nowhere in `q`, nor does `q` end with its beginning.
spec fn holds_no_mask(q: Seq<char>) -> bool {
    &&& q.len() > 0 ==> q.last() != '*'
    &&& absent(q, "***"@)
}

/// A text without the mask in it that replacing leaves at the beginning stood
/// there before.
proof fn lemma_replace_prefix(s: Seq<char>, p: Seq<char>, q: Seq<char>)
    requires
        p.len() > 0,
        holds_no_mask(q),
        q.len() <= text::replace(s, p, "***"@).len(),
        text::replace(s, p, "***"@).take(q.len() as int) =~= q,
    ensures
        q.len() <= s.len(),
        s.take(q.len() as int) =~= q,
    decreases s.len(),
{
    reveal_strlit("***");
    let r = text::replace(s, p, "***"@);
    if q.len() == 0 || p.len() > s.len() {
    } else if text::starts(s, p) {
        if q.len() <= 3 {
            assert(q[q.len() - 1] == r[q.len() - 1]);
        } else {
            assert(q.subrange(0, 3) =~= "***"@) by {
                assert forall|i: int| 0 <= i < 3 implies q[i] == '*' by {
                    assert(q[i] == r[i]);
                }
            }
            assert(text::occurs_at(q, "***"@, 0));
        }
    } else {
        let r1 = text::replace(s.skip(1), p, "***"@);
        let q1 = q.skip(1);
        assert(r.skip(1) =~= r1);
        assert(r1.take(q1.len() as int) =~= q1) by {
            assert forall|i: int| 0 <= i < q1.len() implies r1[i] == q1[i] by {
                assert(q[i + 1] == r.take(q.len() as int)[i + 1]);
                assert(r[i + 1] == r1[i]);
            }
        }
        lemma_absent_part(q, "***"@, 1, q.len() as int);
        assert(q.subrange(1, q.len() as int) =~= q1);
        assert(q1.len() > 0 ==> q1.last() == q.last());
        lemma_replace_prefix(s.skip(1), p, q1);
        assert(q[0] == r[0]);
        assert forall|i: int| 0 <= i < q.len() implies s[i] == q[i] by {
            if i > 0 {
                assert(s.skip(1).take(q1.len() as int)[i - 1] == q1[i - 1]);
            }
        }
    }
}

/// Where `p` is replaced by `***`, no text appears that was not there before,
/// and `p` itself is gone, but for texts that the mask can be a part of.
proof fn lemma_replace_hides(s: Seq<char>, p: Seq<char>, q: Seq<char>)
    requires
        p.len() > 0,
        q.len() > 0,
        q[0] != '*',
        holds_no_mask(q),
        q == p || absent(s, q),
    ensures
        absent(text::replace(s, p, "***"@), q),
    decreases s.len(),
{
    reveal_strlit("***");
    let r = text::replace(s, p, "***"@);
    if p.len() > s.len() {
        assert forall|i: int| !text::occurs_at(r, q, i) by {
            if q != p {
                assert(!text::occurs_at(s, q, i));
            }
        }
    } else if text::starts(s, p) {
        let k = p.len() as int;
        let r1 = text::replace(s.skip(k), p, "***"@);
        lemma_no_occurrence_in_suffix(s, q, k, q == p);
        lemma_replace_hides(s.skip(k), p, q);
        assert forall|i: int| !text::occurs_at(r, q, i) by {
            if text::occurs_at(r, q, i) {
                if i < 3 {
                    assert(r[i] == '*');
                    assert(q[0] == r.subrange(i, i + q.len())[0]);
                } else {
                    assert(r1.subrange(i - 3, i - 3 + q.len()) =~= r.subrange(i, i + q.len()));
                    assert(text::occurs_at(r1, q, i - 3));
                }
            }
        }
    } else {
        let r1 = text::replace(s.skip(1), p, "***"@);
        lemma_no_occurrence_in_suffix(s, q, 1, q == p);
        lemma_replace_hides(s.skip(1), p, q);
        assert forall|i: int| !text::occurs_at(r, q, i) by {
            if text::occurs_at(r, q, i) {
                if i > 0 {
                    assert(r1.subrange(i - 1, i - 1 + q.len()) =~= r.subrange(i, i + q.len()));
                    assert(text::occurs_at(r1, q, i - 1));
                } else {
                    assert(r.take(q.len() as int) =~= r.subrange(0, q.len() as int));
                    lemma_replace_prefix(s, p, q);
                    assert(s.subrange(0, q.len() as int) =~= q);
                    assert(text::occurs_at(s, q, 0));
                }
            }
        }
    }
}

proof fn lemma_no_occurrence_in_suffix(s: Seq<char>, q: Seq<char>, k: int, skip: bool)
    requires
        0 <= k <= s.len(),
        skip || absent(s, q),
    ensures
        skip || absent(s.skip(k), q),
{
    if !skip {
        assert forall|j: int| !text::occurs_at(s.skip(k), q, j) by {
            if text::occurs_at(s.skip(k), q, j) {
                assert(s.subrange(j + k, j + k + q.len()) =~= s.skip(k).subrange(j, j + q.len()));
                assert(text::occurs_at(s, q, j + k));
            }
        }
    }
}

/// An asterisk, a semicolon or an ellipsis.
spec fn is_kept_sign(c: char) -> bool {
    c == '*' || c == ';' || c == '…'
}

/// Encoding leaves certain signs where they are: such a sign ends the encoded
/// text exactly where it ends the text.
proof fn lemma_encoded_last(s: Seq<char>, c: char)
    requires
        s.len() > 0,
        is_kept_sign(c),
    ensures
        encoded(s).len() > 0,
        encoded(s).last() == c <==> s.last() == c,
        s.last() == c ==> encoded(s) == encoded(s.drop_last()).push(c),
{
    reveal_encoded_literals();
    let last = encoded_char(s.last());
    assert(encoded(s).last() == last.last());
    if s.last() == c {
        assert(encoded(s) =~= encoded(s.drop_last()).push(c));
    }
}

/// An asterisk begins the encoded text exactly where it begins the text; a
/// space never does.
proof fn lemma_encoded_first(s: Seq<char>)
    requires
        s.len() > 0,
    ensures
        encoded(s).len() > 0,
        encoded(s)[0] == '*' <==> s[0] == '*',
        encoded(s)[0] != ' ',
    decreases s.len(),
{
    reveal_encoded_literals();
    if s.len() > 1 {
        lemma_encoded_first(s.drop_last());
        assert(encoded(s)[0] == encoded(s.drop_last())[0]);
    } else {
        assert(encoded(s.drop_last()) =~= Seq::empty());
        assert(encoded(s) =~= encoded_char(s[0]));
    }
}

/// Encoding brings in no mask.
proof fn lemma_encoded_mask(s: Seq<char>)
    requires
        absent(s, "***"@),
    ensures
        absent(encoded(s), "***"@),
    decreases s.len(),
{
    reveal_strlit("***");
    reveal_encoded_literals();
    let e = encoded(s);
    if s.len() == 0 {
        assert forall|i: int| !text::occurs_at(e, "***"@, i) by {}
    } else {
        let e0 = encoded(s.drop_last());
        lemma_absent_part(s, "***"@, 0, s.len() - 1);
        assert(s.subrange(0, s.len() - 1) =~= s.drop_last());
        lemma_encoded_mask(s.drop_last());
        lemma_encoded_last(s, '*');
        let last = encoded_char(s.last());
        assert forall|i: int| !text::occurs_at(e, "***"@, i) by {
            if text::occurs_at(e, "***"@, i) {
                let part = e.subrange(i, i + 3);
                assert(part[0] == e[i] && part[1] == e[i + 1] && part[2] == e[i + 2]);
                if i + 3 <= e0.len() {
                    assert(e0.subrange(i, i + 3) =~= part);
                    assert(text::occurs_at(e0, "***"@, i));
                } else {
                    assert(e[i + 2] == last[i + 2 - e0.len()]);
                    assert(s.last() == '*');
                    assert(e == e0.push('*'));
                    assert(e0.last() == '*');
                    let s0 = s.drop_last();
                    if s0.len() == 0 {
                        assert(e0 =~= Seq::empty());
                    }
                    lemma_encoded_last(s0, '*');
                    let s1 = s0.drop_last();
                    assert(encoded(s1).last() == '*');
                    if s1.len() == 0 {
                        assert(encoded(s1) =~= Seq::empty());
                    }
                    lemma_encoded_last(s1, '*');
                    assert(s.subrange(s.len() - 3, s.len() as int) =~= "***"@);
                    assert(text::occurs_at(s, "***"@, s.len() - 3));
                }
            }
        }
    }
}

/// A password that the mask cannot bring back: it neither begins nor ends with
/// an asterisk, and holds no three in a row.
pub open spec fn is_maskable(secret: Seq<char>) -> bool {
    &&& secret.len() > 0
    &&& secret[0] != '*'
    &&& secret.last() != '*'
    &&& !text::has(secret, "***"@)
}

/// Neither the password nor its encoded form is left in a masked text. A
/// password that begins or ends with an asterisk, or holds three in a row, can
/// reappear out of the mask itself.
pub proof fn masked_text_holds_no_secret(text: Seq<char>, secret: Seq<char>)
    requires
        is_maskable(secret),
    ensures
        !text::has(without_secret(text, secret), secret),
        !text::has(without_secret(text, secret), encoded(secret)),
{
    let plain = text::replace(text, secret, "***"@);
    let enc = encoded(secret);
    text::lemma_find_from(secret, "***"@, 0);
    lemma_encoded_first(secret);
    lemma_encoded_last(secret, '*');
    lemma_encoded_mask(secret);
    lemma_replace_hides(text, secret, secret);
    lemma_replace_hides(plain, enc, secret);
    lemma_replace_hides(plain, enc, enc);
    text::lemma_find_from(without_secret(text, secret), secret, 0);
    text::lemma_find_from(without_secret(text, secret), enc, 0);
}

/// `p` stands nowhere in `s`.
spec fn absent(s: Seq<char>, p: Seq<char>) -> bool {
    forall|i: int| !text::occurs_at(s, p, i)
}

proof fn lemma_absent_part(s: Seq<char>, p: Seq<char>, a: int, b: int)
    requires
        absent(s, p),
        0 <= a <= b <= s.len(),
    ensures
        absent(s.subrange(a, b), p),
{
    let part = s.subrange(a, b);
    assert forall|i: int| !text::occurs_at(part, p, i) by {
        if text::occurs_at(part, p, i) {
            assert(part.subrange(i, i + p.len()) =~= s.subrange(a + i, a + i + p.len()));
            assert(text::occurs_at(s, p, a + i));
        }
    }
}

proof fn lemma_absent_trimmed(s: Seq<char>, p: Seq<char>)
    requires
        absent(s, p),
    ensures
        absent(text::trim(s), p),
    decreases s.len(),
{
    if s.len() > 0 && text::is_space(s[0]) {
        lemma_absent_part(s, p, 1, s.len() as int);
        assert(s.subrange(1, s.len() as int) =~= s.skip(1));
        lemma_absent_trimmed(s.skip(1), p);
    } else if s.len() > 0 && text::is_space(s.last()) {
        lemma_absent_part(s, p, 0, s.len() - 1);
        assert(s.subrange(0, s.len() - 1) =~= s.drop_last());
        lemma_absent_trimmed(s.drop_last(), p);
        assert(text::trim_start(s.drop_last()) == s.drop_last());
    }
}

proof fn lemma_absent_lines(s: Seq<char>, p: Seq<char>)
    requires
        absent(s, p),
    ensures
        forall|j: int| 0 <= j < text::lines(s).len() ==> absent(#[trigger] text::lines(s)[j], p),
    decreases s.len(),
{
    if s.len() > 0 {
        let k = text::next_char(s, '\n', 0);
        if 0 <= k < s.len() {
            let line = text::strip_cr(s.take(k));
            lemma_absent_part(s, p, 0, line.len() as int);
            assert(s.subrange(0, line.len() as int) =~= line);
            lemma_absent_part(s, p, k + 1, s.len() as int);
            assert(s.subrange(k + 1, s.len() as int) =~= s.skip(k + 1));
            lemma_absent_lines(s.skip(k + 1), p);
            let rest = text::lines(s.skip(k + 1));
            assert forall|j: int| 0 <= j < text::lines(s).len() implies absent(
                #[trigger] text::lines(s)[j],
                p,
            ) by {
                if j > 0 {
                    assert(text::lines(s)[j] == rest[j - 1]);
                }
            }
        }
    }
}

proof fn lemma_absent_meaningful(lines: Seq<Seq<char>>, p: Seq<char>)
    requires
        forall|j: int| 0 <= j < lines.len() ==> absent(#[trigger] lines[j], p),
    ensures
        forall|j: int|
            0 <= j < meaningful(lines).len() ==> absent(#[trigger] meaningful(lines)[j], p),
    decreases lines.len(),
{
    if lines.len() > 0 {
        assert forall|j: int| 0 <= j < lines.len() - 1 implies absent(
            #[trigger] lines.drop_last()[j],
            p,
        ) by {
            assert(lines.drop_last()[j] == lines[j]);
        }
        lemma_absent_meaningful(lines.drop_last(), p);
        assert(absent(lines[lines.len() - 1], p));
        lemma_absent_trimmed(lines.last(), p);
        let before = meaningful(lines.drop_last());
        assert forall|j: int| 0 <= j < meaningful(lines).len() implies absent(
            #[trigger] meaningful(lines)[j],
            p,
        ) by {
            if j < before.len() {
                assert(meaningful(lines)[j] == before[j]);
            }
        }
    }
}

proof fn lemma_absent_joined(v: Seq<Seq<char>>, p: Seq<char>)
    requires
        forall|j: int| 0 <= j < v.len() ==> absent(#[trigger] v[j], p),
        p.len() > 0,
        p[0] != ' ',
        p.last() != ';',
        absent(p, "; "@),
    ensures
        absent(text::join(v, "; "@), p),
    decreases v.len(),
{
    reveal_strlit("; ");
    let s = text::join(v, "; "@);
    if v.len() >= 2 {
        assert forall|j: int| 0 <= j < v.len() - 1 implies absent(
            #[trigger] v.drop_last()[j],
            p,
        ) by {
            assert(v.drop_last()[j] == v[j]);
        }
        lemma_absent_joined(v.drop_last(), p);
        let head = text::join(v.drop_last(), "; "@);
        let last = v[v.len() - 1];
        let n = head.len() as int;
        assert(s == head + "; "@ + last);
        assert forall|i: int| !text::occurs_at(s, p, i) by {
            if text::occurs_at(s, p, i) {
                if i + p.len() <= n {
                    assert(head.subrange(i, i + p.len()) =~= p);
                    assert(text::occurs_at(head, p, i));
                } else if i >= n + 2 {
                    assert(last.subrange(i - n - 2, i - n - 2 + p.len()) =~= s.subrange(
                        i,
                        i + p.len(),
                    ));
                    assert(text::occurs_at(last, p, i - n - 2));
                } else if i <= n {
                    assert(s.subrange(i, i + p.len())[n - i] == s[n]);
                    assert(p[n - i] == ';');
                    if i + p.len() >= n + 2 {
                        assert(s.subrange(i, i + p.len())[n + 1 - i] == s[n + 1]);
                        assert(p.subrange(n - i, n - i + 2) =~= "; "@);
                        assert(text::occurs_at(p, "; "@, n - i));
                    }
                } else {
                    assert(s.subrange(i, i + p.len())[0] == s[n + 1]);
                }
            }
        }
    }
}

proof fn lemma_absent_tail(text: Seq<char>, p: Seq<char>)
    requires
        absent(text, p),
        p.len() > 0,
        p[0] != ' ',
        p.last() != ';',
        p.last() != '…',
        absent(p, "; "@),
    ensures
        absent(tail_of(text), p),
{
    reveal_strlit("…");
    lemma_absent_lines(text, p);
    lemma_absent_meaningful(text::lines(text), p);
    let all = meaningful(text::lines(text));
    let kept = last_items(all, 3);
    assert forall|j: int| 0 <= j < kept.len() implies absent(#[trigger] kept[j], p) by {
        if all.len() > 3 {
            assert(kept[j] == all[all.len() - 3 + j]);
        }
    }
    lemma_absent_joined(kept, p);
    let s = text::join(kept, "; "@);
    if s.len() > 300 {
        lemma_absent_part(s, p, 0, 300);
        assert(s.subrange(0, 300) =~= s.take(300));
        let cut = shortened(s);
        assert forall|i: int| !text::occurs_at(cut, p, i) by {
            if text::occurs_at(cut, p, i) {
                if i + p.len() <= 300 {
                    assert(s.take(300).subrange(i, i + p.len()) =~= p);
                    assert(text::occurs_at(s.take(300), p, i));
                } else {
                    assert(cut.subrange(i, i + p.len())[300 - i] == cut[300]);
                    assert(p[300 - i] == '…');
                }
            }
        }
    }
}

/// Encoding leaves no space in a text.
proof fn lemma_encoded_spaces(s: Seq<char>)
    ensures
        !encoded(s).contains(' '),
    decreases s.len(),
{
    reveal_encoded_literals();
    if s.len() > 0 {
        lemma_encoded_spaces(s.drop_last());
        let e0 = encoded(s.drop_last());
        assert forall|i: int| 0 <= i < encoded(s).len() implies encoded(s)[i] != ' ' by {
            if i < e0.len() {
                assert(e0.contains(e0[i]));
            } else {
                assert(encoded(s)[i] == encoded_char(s.last())[i - e0.len()]);
            }
        }
    }
}

/// What a failed push reports of the output of git holds neither the password
/// nor its encoded form. Besides the mask, the sign that joins lines and the one
/// that ends a cut text can bring a password about: one that begins with a
/// space, ends with a semicolon or an ellipsis, or holds the joining sign.
pub proof fn push_error_tells_no_password(output: Seq<char>, secret: Seq<char>)
    requires
        is_maskable(secret),
        secret[0] != ' ',
        secret.last() != ';',
        secret.last() != '…',
        !text::has(secret, "; "@),
    ensures
        !text::has(tail_of(without_secret(output, secret)), secret),
        !text::has(tail_of(without_secret(output, secret)), encoded(secret)),
{
    reveal_strlit("; ");
    let masked = without_secret(output, secret);
    let enc = encoded(secret);
    masked_text_holds_no_secret(output, secret);
    text::lemma_find_from(masked, secret, 0);
    text::lemma_find_from(masked, enc, 0);
    text::lemma_find_from(secret, "; "@, 0);
    lemma_encoded_first(secret);
    lemma_encoded_last(secret, ';');
    lemma_encoded_last(secret, '…');
    lemma_encoded_spaces(secret);
    assert forall|i: int| !text::occurs_at(enc, "; "@, i) by {
        if text::occurs_at(enc, "; "@, i) {
            assert(enc.subrange(i, i + 2)[1] == enc[i + 1]);
            assert(enc.contains(enc[i + 1]));
        }
    }
    lemma_absent_tail(masked, secret);
    lemma_absent_tail(masked, enc);
    text::lemma_find_from(tail_of(masked), secret, 0);
    text::lemma_find_from(tail_of(masked), enc, 0);
}

/// A text without an address is shown as it is.
pub proof fn text_without_address_is_unchanged(s: Seq<char>)
    requires
        !text::has(s, "://"@),
    ensures
        masked_urls(s) == s,
{
}

/// The only white space in the text is the plain space.
pub open spec fn plain_spaces(s: Seq<char>) -> bool {
    forall|i: int| 0 <= i < s.len() && text::is_space(#[trigger] s[i]) ==> s[i] == ' '
}

/// A character that ends neither a login nor the host part of an address.
spec fn login_char(c: char) -> bool {
    c != '@' && c != ':' && c != '/' && !text::is_space(c)
}

proof fn lemma_encoded_login(s: Seq<char>)
    requires
        plain_spaces(s),
    ensures
        forall|i: int| 0 <= i < encoded(s).len() ==> login_char(#[trigger] encoded(s)[i]),
    decreases s.len(),
{
    reveal_encoded_literals();
    if s.len() > 0 {
        let s0 = s.drop_last();
        assert forall|i: int| 0 <= i < s0.len() && text::is_space(#[trigger] s0[i]) implies s0[i]
            == ' ' by {
            assert(s0[i] == s[i]);
        }
        lemma_encoded_login(s0);
        assert(text::is_space(s[s.len() - 1]) ==> s[s.len() - 1] == ' ');
        let e0 = encoded(s0);
        let last = encoded_char(s.last());
        assert(forall|i: int| 0 <= i < last.len() ==> login_char(#[trigger] last[i]));
        assert forall|i: int| 0 <= i < encoded(s).len() implies login_char(
            #[trigger] encoded(s)[i],
        ) by {
            if i < e0.len() {
                assert(encoded(s)[i] == e0[i]);
            } else {
                assert(encoded(s)[i] == last[i - e0.len()]);
            }
        }
    }
}

/// The host part reaches over characters that do not end it.
proof fn lemma_authority_over(a: Seq<char>, b: Seq<char>)
    requires
        forall|i: int| 0 <= i < a.len() ==> a[i] != '/' && !text::is_space(#[trigger] a[i]),
    ensures
        authority_len(a + b) == a.len() + authority_len(b),
    decreases a.len(),
{
    if a.len() == 0 {
        assert(a + b =~= b);
    } else {
        assert((a + b)[0] == a[0]);
        assert((a + b).skip(1) =~= a.skip(1) + b);
        assert forall|i: int| 0 <= i < a.skip(1).len() implies a.skip(1)[i] != '/'
            && !text::is_space(#[trigger] a.skip(1)[i]) by {
            assert(a.skip(1)[i] == a[i + 1]);
        }
        lemma_authority_over(a.skip(1), b);
    }
}

/// What a login in an address looks like in the log.
proof fn lemma_masked_login(head: Seq<char>, user: Seq<char>, password: Seq<char>, tail: Seq<char>)
    requires
        head.len() >= 3,
        text::find(head, "://"@) == Some(head.len() - 3),
        plain_spaces(user),
        plain_spaces(password),
    ensures
        masked_urls(head + (encoded(user) + ":"@ + encoded(password) + "@"@ + tail)) == head + (
        encoded(user) + ":***"@ + ("@"@ + tail.take(authority_len(tail)))) + masked_urls(
            tail.skip(authority_len(tail)),
        ),
{
    reveal_strlit("://");
    reveal_strlit(":");
    reveal_strlit("@");
    let eu = encoded(user);
    let ep = encoded(password);
    let login = eu + ":"@ + ep + "@"@;
    let rest = login + tail;
    let s = head + rest;
    assert(rest =~= eu + ":"@ + ep + "@"@ + tail);
    lemma_encoded_login(user);
    lemma_encoded_login(password);
    // the address mark
    text::lemma_find_from(head, "://"@, 0);
    assert forall|j: int| 0 <= j < head.len() - 3 implies !text::occurs_at(s, "://"@, j) by {
        assert(s.subrange(j, j + 3) =~= head.subrange(j, j + 3));
        assert(!text::occurs_at(head, "://"@, j));
    }
    assert(s.subrange(head.len() - 3, head.len() as int) =~= head.subrange(
        head.len() - 3,
        head.len() as int,
    ));
    assert(text::occurs_at(s, "://"@, head.len() - 3));
    text::lemma_found(s, "://"@, head.len() - 3);
    assert(s.skip(head.len() as int) =~= rest);
    assert(s.take(head.len() as int) =~= head);
    // the host part
    assert forall|i: int| 0 <= i < login.len() implies login[i] != '/' && !text::is_space(
        #[trigger] login[i],
    ) by {
        if i < eu.len() {
            assert(login[i] == eu[i]);
            assert(login_char(eu[i]));
        } else if i == eu.len() {
        } else if i < eu.len() + 1 + ep.len() {
            assert(login[i] == ep[i - eu.len() - 1]);
            assert(login_char(ep[i - eu.len() - 1]));
        }
    }
    lemma_authority_over(login, tail);
    lemma_authority_len(tail);
    let n = authority_len(tail);
    let a = login + tail.take(n);
    assert(rest.take(login.len() + n) =~= a);
    assert(rest.skip(login.len() + n) =~= tail.skip(n));
    // the password in it
    assert(!eu.contains(':')) by {
        assert forall|i: int| 0 <= i < eu.len() implies eu[i] != ':' by {
            assert(login_char(eu[i]));
        }
    }
    assert(a =~= eu + ":"@ + (ep + "@"@ + tail.take(n)));
    text::lemma_split_at_char(eu, ":"@, ep + "@"@ + tail.take(n));
    let before_at = eu + ":"@ + ep;
    assert(!before_at.contains('@')) by {
        assert forall|i: int| 0 <= i < before_at.len() implies before_at[i] != '@' by {
            if i < eu.len() {
                assert(before_at[i] == eu[i]);
                assert(login_char(eu[i]));
            } else if i > eu.len() {
                assert(before_at[i] == ep[i - eu.len() - 1]);
                assert(login_char(ep[i - eu.len() - 1]));
            }
        }
    }
    assert(a =~= before_at + "@"@ + tail.take(n));
    text::lemma_split_at_char(before_at, "@"@, tail.take(n));
    assert(a.take(eu.len() as int) =~= eu);
    assert(a.skip(before_at.len() as int) =~= "@"@ + tail.take(n));
}

/// The host part of an address ends within a text that ends with white space.
proof fn lemma_authority_within(a: Seq<char>, b: Seq<char>)
    requires
        a.len() > 0,
        text::is_space(a.last()),
    ensures
        authority_len(a + b) == authority_len(a),
        0 <= authority_len(a) < a.len(),
    decreases a.len(),
{
    assert((a + b)[0] == a[0]);
    if a[0] == '/' || text::is_space(a[0]) {
    } else {
        assert(a.len() > 1);
        assert((a + b).skip(1) =~= a.skip(1) + b);
        assert(a.skip(1).last() == a.last());
        lemma_authority_within(a.skip(1), b);
    }
}

/// An address does not reach over white space.
proof fn lemma_masked_apart(a: Seq<char>, b: Seq<char>)
    requires
        a.len() > 0 ==> text::is_space(a.last()),
    ensures
        masked_urls(a + b) == masked_urls(a) + masked_urls(b),
    decreases a.len(),
{
    reveal_strlit("://");
    let s = a + b;
    let n = a.len() as int;
    text::lemma_find_from(a, "://"@, 0);
    text::lemma_find_from(b, "://"@, 0);
    text::lemma_find_from(s, "://"@, 0);
    if n == 0 {
        assert(s =~= b);
        assert(masked_urls(a) =~= a);
        assert(a + masked_urls(b) =~= masked_urls(b));
    } else {
        assert forall|j: int| text::occurs_at(s, "://"@, j) implies text::occurs_at(a, "://"@, j)
            || (j >= n && text::occurs_at(b, "://"@, j - n)) by {
            let part = s.subrange(j, j + 3);
            assert(part[0] == s[j] && part[1] == s[j + 1] && part[2] == s[j + 2]);
            if j + 3 <= n {
                assert(a.subrange(j, j + 3) =~= part);
            } else if j >= n {
                assert(b.subrange(j - n, j - n + 3) =~= part);
            } else {
                assert(s[n - 1] == a.last());
                assert(text::is_space(part[n - 1 - j]));
            }
        }
        match text::find(a, "://"@) {
            None => {
                match text::find(b, "://"@) {
                    None => {
                        assert forall|j: int| !text::occurs_at(s, "://"@, j) by {}
                        assert(text::find(s, "://"@) is None);
                    },
                    Some(q) => {
                        assert(s.subrange(n + q, n + q + 3) =~= b.subrange(q, q + 3));
                        assert(text::occurs_at(s, "://"@, n + q));
                        text::lemma_found(s, "://"@, n + q);
                        let rest = b.skip(q + 3);
                        assert(s.skip(n + q + 3) =~= rest);
                        assert(s.take(n + q + 3) =~= a + b.take(q + 3));
                        let k = authority_len(rest);
                        lemma_authority_len(rest);
                        assert(masked_urls(s) =~= a + masked_urls(b));
                    },
                }
            },
            Some(p) => {
                assert(a.subrange(p, p + 3)[2] == '/');
                assert(a[p + 2] == a.subrange(p, p + 3)[2]);
                assert(p + 3 < n);
                assert(s.subrange(p, p + 3) =~= a.subrange(p, p + 3));
                assert(text::occurs_at(s, "://"@, p));
                assert forall|j: int| 0 <= j < p implies !text::occurs_at(s, "://"@, j) by {}
                text::lemma_found(s, "://"@, p);
                let rest = a.skip(p + 3);
                assert(rest.last() == a.last());
                lemma_authority_within(rest, b);
                let k = authority_len(rest);
                assert(s.skip(p + 3) =~= rest + b);
                assert(s.take(p + 3) =~= a.take(p + 3));
                assert((rest + b).take(k) =~= rest.take(k));
                assert((rest + b).skip(k) =~= rest.skip(k) + b);
                assert(rest.skip(k).last() == a.last());
                lemma_masked_apart(rest.skip(k), b);
                assert(masked_urls(s) =~= masked_urls(a) + masked_urls(b));
            },
        }
    }
}

/// The password that a push puts into the address does not show in the log:
/// whatever it is, the masked line is the same. `earlier`, `before` and `after`
/// stand for the rest of the command line: the words before that of the
/// address, and what stands around the address in its word and behind it.
pub proof fn pushed_password_is_hidden(
    earlier: Seq<char>,
    before: Seq<char>,
    url: Seq<char>,
    user: Seq<char>,
    password: Seq<char>,
    other: Seq<char>,
    after: Seq<char>,
)
    requires
        earlier.len() > 0 ==> text::is_space(earlier.last()),
        text::find(text::trim(url), "://"@) is Some,
        text::find(before + text::trim(url), "://"@) == Some(
            before.len() + text::find(text::trim(url), "://"@)->0,
        ),
        plain_spaces(user),
        plain_spaces(password),
        plain_spaces(other),
    ensures
        masked_urls(earlier + (before + with_login(url, user, password) + after)) == masked_urls(
            earlier + (before + with_login(url, user, other) + after),
        ),
{
    let u = text::trim(url);
    let p = text::find(u, "://"@)->0;
    lemma_head_mark(before, u, p);
    let head = before + u.take(p + 3);
    let tail = without_login(u.skip(p + 3)) + after;
    lemma_masked_login(head, user, password, tail);
    lemma_masked_login(head, user, other, tail);
    let rest = without_login(u.skip(p + 3));
    lemma_regroup(before, u.take(p + 3), encoded(user), encoded(password), rest, after);
    lemma_regroup(before, u.take(p + 3), encoded(user), encoded(other), rest, after);
    lemma_masked_apart(earlier, before + with_login(url, user, password) + after);
    lemma_masked_apart(earlier, before + with_login(url, user, other) + after);
}

/// The pieces of a command line with an address, grouped in two ways.
proof fn lemma_regroup(
    before: Seq<char>,
    scheme: Seq<char>,
    user: Seq<char>,
    password: Seq<char>,
    rest: Seq<char>,
    after: Seq<char>,
)
    ensures
        before + (scheme + user + ":"@ + password + "@"@ + rest) + after == before + scheme + (user
            + ":"@ + password + "@"@ + (rest + after)),
{
    assert(before + (scheme + user + ":"@ + password + "@"@ + rest) + after =~= before + scheme + (
    user + ":"@ + password + "@"@ + (rest + after)));
}

/// Cutting an address behind its mark leaves the first mark where it is.
proof fn lemma_head_mark(before: Seq<char>, u: Seq<char>, p: int)
    requires
        text::find(u, "://"@) == Some(p),
        text::find(before + u, "://"@) == Some(before.len() + p),
    ensures
        0 <= p && p + 3 <= u.len(),
        text::find(before + u.take(p + 3), "://"@) == Some(before.len() + p),
{
    reveal_strlit("://");
    text::lemma_find_from(u, "://"@, 0);
    let head = before + u.take(p + 3);
    let whole = before + u;
    text::lemma_find_from(whole, "://"@, 0);
    assert forall|j: int| 0 <= j < head.len() - 3 implies !text::occurs_at(head, "://"@, j) by {
        assert(whole.subrange(j, j + 3) =~= head.subrange(j, j + 3));
        assert(!text::occurs_at(whole, "://"@, j));
    }
    assert(head.subrange(head.len() - 3, head.len() as int) =~= whole.subrange(
        head.len() - 3,
        head.len() as int,
    ));
    assert(text::occurs_at(whole, "://"@, head.len() - 3));
    assert(text::occurs_at(head, "://"@, head.len() - 3));
    text::lemma_found(head, "://"@, head.len() - 3);
}

/// A login put into an address replaces the one put there before.
pub proof fn last_login_counts(
    url: Seq<char>,
    old_user: Seq<char>,
    old_password: Seq<char>,
    user: Seq<char>,
    password: Seq<char>,
)
    ensures
        with_login(with_login(url, old_user, old_password), user, password) == with_login(
            url,
            user,
            password,
        ),
{
    reveal_strlit("://");
    reveal_strlit(":");
    reveal_strlit("@");
    reveal_strlit("/");
    let u = text::trim(url);
    text::lemma_trim_ends(url);
    text::lemma_trim_twice(url);
    text::lemma_find_from(u, "://"@, 0);
    if text::find(u, "://"@) is Some {
        let p = text::find(u, "://"@)->0;
        let head = u.take(p + 3);
        let tail = without_login(u.skip(p + 3));
        let login = encoded(old_user) + ":"@ + encoded(old_password);
        let r = with_login(url, old_user, old_password);
        assert(r =~= head + (login + "@"@ + tail));
        assert(r[0] == u[0]);
        if tail.len() > 0 {
            assert(tail.last() == u.last()) by {
                text::lemma_find_from(u.skip(p + 3), "@"@, 0);
            }
        }
        assert(r.last() == if tail.len() > 0 {
            tail.last()
        } else {
            '@'
        });
        text::lemma_trim_id(r);
        assert forall|j: int| 0 <= j < p implies !text::occurs_at(r, "://"@, j) by {
            assert(r.subrange(j, j + 3) =~= u.subrange(j, j + 3));
            assert(!text::occurs_at(u, "://"@, j));
        }
        assert(r.subrange(p, p + 3) =~= u.subrange(p, p + 3));
        text::lemma_found(r, "://"@, p);
        assert(r.take(p + 3) =~= head);
        assert(r.skip(p + 3) =~= login + "@"@ + tail);
        lemma_encoded_free(old_user);
        lemma_encoded_free(old_password);
        assert forall|i: int| 0 <= i < login.len() implies login[i] != '@' && login[i] != '/' by {
            if i < encoded(old_user).len() {
                assert(login[i] == encoded(old_user)[i]);
            } else if i > encoded(old_user).len() {
                assert(login[i] == encoded(old_password)[i - encoded(old_user).len() - 1]);
            }
        }
        let rest = login + "@"@ + tail;
        text::lemma_split_at_char(login, "@"@, tail);
        text::lemma_find_from(rest, "/"@, 0);
        if text::find(rest, "/"@) is Some {
            let slash = text::find(rest, "/"@)->0;
            text::lemma_occurs_char(rest, "/"@, slash);
            if slash <= login.len() {
                assert(rest[slash] == if slash < login.len() {
                    login[slash]
                } else {
                    '@'
                });
            }
        }
        assert(rest.skip((login.len() + 1) as int) =~= tail);
    }
}

/// An encoded text holds neither `@` nor a slash.
proof fn lemma_encoded_free(s: Seq<char>)
    ensures
        forall|i: int|
            0 <= i < encoded(s).len() ==> (#[trigger] encoded(s)[i]) != '@' && encoded(s)[i] != '/',
    decreases s.len(),
{
    reveal_encoded_literals();
    if s.len() > 0 {
        lemma_encoded_free(s.drop_last());
        let e0 = encoded(s.drop_last());
        let last = encoded_char(s.last());
        assert forall|i: int| 0 <= i < encoded(s).len() implies (#[trigger] encoded(s)[i]) != '@'
            && encoded(s)[i] != '/' by {
            if i < e0.len() {
                assert(encoded(s)[i] == e0[i]);
            } else {
                assert(encoded(s)[i] == last[i - e0.len()]);
            }
        }
    }
}

/// An error text for the log is at most 301 characters long.
pub proof fn error_text_is_short(text: Seq<char>)
    ensures
        tail_of(text).len() <= 301,
{
    reveal_strlit("…");
}

// Sizes.

/// The quotient rounded to the nearest number, a half to the even one.
pub open spec fn round_half_even(num: nat, den: nat) -> nat {
    let q = num / den;
    let r = num % den;
    if 2 * r > den || (2 * r == den && q % 2 == 1) {
        q + 1
    } else {
        q
    }
}

/// The spacing of double-precision numbers around `n`.
pub open spec fn double_spacing(n: nat) -> nat
    decreases n,
{
    if n < 0x20_0000_0000_0000 {
        1
    } else {
        2 * double_spacing(n / 2)
    }
}

/// The double-precision number nearest to `n`.
pub open spec fn nearest_double(n: nat) -> nat {
    round_half_even(n, double_spacing(n)) * double_spacing(n)
}

/// A size in the given unit, as a double-precision number with two decimals.
pub open spec fn in_units(bytes: nat, unit: nat) -> Seq<char> {
    let h = round_half_even(nearest_double(bytes) * 100, unit);
    text::dec(h / 100) + "."@ + seq![text::digit(h / 10 % 10), text::digit(h % 10)]
}

/// A size for people to read.
pub open spec fn size_text(bytes: nat) -> Seq<char> {
    if bytes >= 0x4000_0000 {
        in_units(bytes, 0x4000_0000) + " GiB"@
    } else if bytes >= 0x10_0000 {
        in_units(bytes, 0x10_0000) + " MiB"@
    } else if bytes >= 0x400 {
        in_units(bytes, 0x400) + " KiB"@
    } else {
        text::dec(bytes) + " B"@
    }
}

/// The quotient rounded to the nearest number, a half to the even one.
fn round_div(num: u128, den: u128) -> (r: u128)
    requires
        0 < den <= 0x1_0000_0000,
        num < 0x1_0000_0000_0000_0000_0000_0000,
    ensures
        r == round_half_even(num as nat, den as nat),
        r <= num / den + 1,
        r <= num + 1,
{
    let q: u128 = num / den;
    let m: u128 = num % den;
    assert(q <= num) by (nonlinear_arith)
        requires
            q == num / den,
            0 < den,
    ;
    if 2 * m > den || (2 * m == den && q % 2 == 1) {
        q + 1
    } else {
        q
    }
}

/// The spacing of double-precision numbers around `n`.
fn spacing(n: u64) -> (r: u64)
    ensures
        r == double_spacing(n as nat),
        n < 0x20_0000_0000_0000 ==> r == 1,
        0 < r,
        r <= 0x1000,
{
    let mut m: u64 = n;
    let mut r: u64 = 1;
    while m >= 0x20_0000_0000_0000
        invariant
            0 < r,
            r * double_spacing(m as nat) == double_spacing(n as nat),
            m as int * r as int <= n,
            r <= 0x1000,
            n < 0x20_0000_0000_0000 ==> m == n && r == 1,
        decreases m,
    {
        assert(r <= 0x7ff) by (nonlinear_arith)
            requires
                m as int * r as int <= n,
                m >= 0x20_0000_0000_0000,
                n <= 0xffff_ffff_ffff_ffff,
        ;
        assert((m / 2) as int * (2 * r) as int <= m as int * r as int) by (nonlinear_arith)
            requires
                m >= 0,
                r >= 0,
        ;
        assert((2 * r) * double_spacing((m / 2) as nat) == r * (2 * double_spacing((m / 2) as nat)))
            by (nonlinear_arith);
        m = m / 2;
        r = 2 * r;
    }
    assert(r * double_spacing(m as nat) == r) by (nonlinear_arith)
        requires
            double_spacing(m as nat) == 1,
    ;
    r
}

/// A size in the given unit, with two decimals.
fn size_in(bytes: u64, unit: u64) -> (r: String)
    requires
        0x400 <= unit <= 0x4000_0000,
        unit < 0x4000_0000 ==> bytes < 0x4000_0000,
    ensures
        r@ == in_units(bytes as nat, unit as nat),
{
    let s: u64 = spacing(bytes);
    let m: u128 = round_div(bytes as u128, s as u128);
    assert(m <= 0x1_0000_0000_0000_0000);
    assert(m * s <= 0x1000_0000_0000_0000_0000) by (nonlinear_arith)
        requires
            m <= 0x1_0000_0000_0000_0000,
            s <= 0x1000,
    ;
    let d: u128 = m * s as u128;
    let h: u128 = round_div(d * 100, unit as u128);
    let whole: u128 = h / 100;
    if unit == 0x4000_0000 {
        assert((d * 100) / (unit as int) <= 0x1_0000_0000_0000_0000);
    } else {
        assert(d <= 0x4000_0000) by (nonlinear_arith)
            requires
                d == m * s,
                m <= 0x4000_0000,
                s == 1,
        ;
        assert((d * 100) / (unit as int) <= d * 100) by (nonlinear_arith)
            requires
                unit >= 0x400,
        ;
    }
    let mut out = text::dec_of(whole as u64);
    out.append(".");
    let tens: u8 = (h / 10 % 10) as u8;
    let ones: u8 = (h % 10) as u8;
    let ghost head = out@;
    out.push((48 + tens) as char);
    out.push((48 + ones) as char);
    assert(out@ =~= head + seq![text::digit(tens as nat), text::digit(ones as nat)]);
    out
}

/// A size for people to read, with two decimals in the largest unit that it
/// reaches.
pub fn human_size(bytes: u64) -> (r: String)
    ensures
        r@ == size_text(bytes as nat),
{
    if bytes >= 0x4000_0000 {
        let mut out = size_in(bytes, 0x4000_0000);
        out.append(" GiB");
        out
    } else if bytes >= 0x10_0000 {
        let mut out = size_in(bytes, 0x10_0000);
        out.append(" MiB");
        out
    } else if bytes >= 0x400 {
        let mut out = size_in(bytes, 0x400);
        out.append(" KiB");
        out
    } else {
        let mut out = text::dec_of(bytes);
        out.append(" B");
        out
    }
}

/// The number of bytes in files of the given sizes, up to the largest number
/// that fits.
pub open spec fn sum_of(sizes: Seq<u64>) -> nat
    decreases sizes.len(),
{
    if sizes.len() == 0 {
        0
    } else {
        sum_of(sizes.drop_last()) + sizes.last() as nat
    }
}

/// The number of bytes in files of the given sizes, up to the largest number
/// that fits.
pub fn total_size(sizes: &[u64]) -> (r: u64)
    ensures
        sum_of(sizes@) <= u64::MAX ==> r == sum_of(sizes@),
        sum_of(sizes@) > u64::MAX ==> r == u64::MAX,
{
    let mut total: u64 = 0;
    for i in 0..sizes.len()
        invariant
            sum_of(sizes@.take(i as int)) <= u64::MAX ==> total == sum_of(sizes@.take(i as int)),
            sum_of(sizes@.take(i as int)) > u64::MAX ==> total == u64::MAX,
    {
        assert(sizes@.take(i + 1).drop_last() =~= sizes@.take(i as int));
        total = total.saturating_add(sizes[i]);
    }
    assert(sizes@.take(sizes@.len() as int) =~= sizes@);
    total
}

// Packing.

/// A packing of the repository: the arguments of git and how the log names
/// them.
#[derive(Debug, Clone)]
pub struct GcPlan {
    pub label: String,
    pub args: Vec<String>,
}

/// How many loose objects a repository may hold before a packing is due.
pub const GC_THRESHOLD: &'static str = "gc.auto=6700";

/// The arguments of a packing, behind those of every git command. The plain one
/// sets its own threshold, since the setting of every command turns packing off:
/// of two settings the later one counts.
pub open spec fn gc_arg_list(aggressive: bool) -> Seq<Seq<char>> {
    if aggressive {
        seq!["gc"@, "--aggressive"@, "--prune=now"@]
    } else {
        seq!["-c"@, GC_THRESHOLD@, "gc"@, "--auto"@]
    }
}

/// The packing of a repository: a deep one that prunes at once, or the one
/// that git does where the threshold is passed.
pub fn git_gc(aggressive: bool) -> (r: GcPlan)
    ensures
        r.label@ == if aggressive {
            "--aggressive --prune=now"@
        } else {
            "--auto"@
        },
        text::views(r.args@) == gc_arg_list(aggressive),
{
    let args = if aggressive {
        text::list3("gc", "--aggressive", "--prune=now")
    } else {
        text::list4("-c", GC_THRESHOLD, "gc", "--auto")
    };
    let label = if aggressive {
        "--aggressive --prune=now"
    } else {
        "--auto"
    };
    GcPlan { label: label.to_owned(), args }
}

/// The value that the arguments of git give a setting: the last one counts.
pub open spec fn setting_in(args: Seq<Seq<char>>, key: Seq<char>) -> Option<Seq<char>>
    decreases args.len(),
{
    if args.len() < 2 {
        None
    } else if args[args.len() - 2] == "-c"@ && text::starts(args.last(), key + "="@) {
        Some(args.last().skip(key.len() as int + 1))
    } else {
        setting_in(args.drop_last(), key)
    }
}

/// No command packs the repository on its own, and a packing that is asked for
/// has its threshold.
pub proof fn packing_is_done_when_asked_for(repo: Seq<char>, autocrlf: Seq<char>)
    ensures
        setting_in(seq!["-C"@, repo] + config_arg_list(autocrlf), "gc.auto"@) == Some("0"@),
        setting_in(
            seq!["-C"@, repo] + config_arg_list(autocrlf) + gc_arg_list(false),
            "gc.auto"@,
        ) == Some("6700"@),
{
    reveal_strlit("-c");
    reveal_strlit("gc");
    reveal_strlit("=");
    reveal_strlit("0");
    reveal_strlit("6700");
    reveal_strlit("gc.auto");
    reveal_strlit("gc.auto=0");
    reveal_strlit("gc.auto=6700");
    let common = seq!["-C"@, repo] + config_arg_list(autocrlf);
    assert("gc.auto=0"@.take(8) =~= "gc.auto"@ + "="@);
    assert("gc.auto=0"@.skip(8) =~= "0"@);
    assert("gc.auto=6700"@.take(8) =~= "gc.auto"@ + "="@);
    assert("gc.auto=6700"@.skip(8) =~= "6700"@);
    let n = common.len() as int;
    assert(common[n - 2] == "-c"@ && common[n - 1] == "gc.auto=0"@);
    let all = common + gc_arg_list(false);
    let three = all.drop_last();
    let two = three.drop_last();
    assert("gc"@.len() == 2 && "gc"@[0] == 'g' && "-c"@[0] == '-');
    assert("gc.auto=6700"@[0] == 'g');
    assert(all[n + 2] == "gc"@);
    assert(three[n + 1] == "gc.auto=6700"@);
    assert(two[n] == "-c"@ && two.last() == "gc.auto=6700"@);
    assert(setting_in(two, "gc.auto"@) == Some("6700"@));
    assert(setting_in(three, "gc.auto"@) == setting_in(two, "gc.auto"@));
}

/// What the log says before a packing.
pub fn gc_start_message(plan: &GcPlan, size_before: u64) -> (r: String)
    ensures
        r@ == "git gc "@ + plan.label@ + " (.git/ = "@ + size_text(size_before as nat) + ")"@,
{
    let mut m = "git gc ".to_owned();
    m.append(&plan.label);
    m.append(" (.git/ = ");
    let size = human_size(size_before);
    m.append(&size);
    m.append(")");
    m
}

/// The message about a git command that failed.
pub open spec fn git_failure(args: Seq<Seq<char>>, code: int) -> Seq<char> {
    "git "@ + text::join(args, " "@) + " упал с кодом "@ + text::dec_int(code)
}

/// The message about a git command that failed.
pub fn git_failed(args: &Vec<String>, code: i32) -> (r: String)
    ensures
        r@ == git_failure(text::views(args@), code as int),
{
    let mut m = "git ".to_owned();
    let line = text::joined(args, " ");
    m.append(&line);
    m.append(" упал с кодом ");
    let number = text::dec_int_of(code as i64);
    m.append(&number);
    m
}

// Steps.

/// What a flow of git commands asks for next.
#[derive(Debug)]
pub enum GitAction<T> {
    /// Run git quietly; only its return code matters.
    Code(Vec<String>),
    /// Run git; its output matters, and a return code other than zero is a
    /// failure.
    Run(Vec<String>),
    /// Run `git push`.
    Push(Vec<String>),
    /// The flow is over.
    Finish(Result<T, String>),
}

/// What came of an action.
#[derive(Debug)]
pub enum GitReply {
    /// The return code of a quiet command.
    Code(i32),
    /// The output of a command that succeeded.
    Output(String),
    /// The return code of a push and what was captured of its output.
    Pushed(i32, String),
    /// The command failed or could not be started.
    Failed(String),
}

/// What a flow asks for next.
pub enum ActionView<T> {
    Code(Seq<Seq<char>>),
    Run(Seq<Seq<char>>),
    Push(Seq<Seq<char>>),
    Finish(Result<T, Seq<char>>),
}

/// What came of an action.
pub enum ReplyView {
    Code(int),
    Output(Seq<char>),
    Pushed(int, Seq<char>),
    Failed(Seq<char>),
}

impl<T> View for GitAction<T> {
    type V = ActionView<T>;

    open spec fn view(&self) -> ActionView<T> {
        match *self {
            GitAction::Code(args) => ActionView::Code(text::views(args@)),
            GitAction::Run(args) => ActionView::Run(text::views(args@)),
            GitAction::Push(args) => ActionView::Push(text::views(args@)),
            GitAction::Finish(Ok(t)) => ActionView::Finish(Ok(t)),
            GitAction::Finish(Err(e)) => ActionView::Finish(Err(e@)),
        }
    }
}

impl View for GitReply {
    type V = ReplyView;

    open spec fn view(&self) -> ReplyView {
        match *self {
            GitReply::Code(c) => ReplyView::Code(c as int),
            GitReply::Output(s) => ReplyView::Output(s@),
            GitReply::Pushed(c, s) => ReplyView::Pushed(c as int, s@),
            GitReply::Failed(e) => ReplyView::Failed(e@),
        }
    }
}

/// Where a synchronisation stands: the command whose reply it waits for.
#[derive(Debug)]
pub enum PushStage {
    Check,
    Add,
    Diff,
    Commit,
    Upstream { committed: bool },
    Branch { committed: bool },
    Address { committed: bool },
    AddressBranch { committed: bool, url: String },
    Push { committed: bool },
    Finished,
}

/// Where a synchronisation stands.
pub enum PushStageView {
    Check,
    Add,
    Diff,
    Commit,
    Upstream { committed: bool },
    Branch { committed: bool },
    Address { committed: bool },
    AddressBranch { committed: bool, url: Seq<char> },
    Push { committed: bool },
    Finished,
}

impl View for PushStage {
    type V = PushStageView;

    open spec fn view(&self) -> PushStageView {
        match *self {
            PushStage::Check => PushStageView::Check,
            PushStage::Add => PushStageView::Add,
            PushStage::Diff => PushStageView::Diff,
            PushStage::Commit => PushStageView::Commit,
            PushStage::Upstream { committed } => PushStageView::Upstream { committed },
            PushStage::Branch { committed } => PushStageView::Branch { committed },
            PushStage::Address { committed } => PushStageView::Address { committed },
            PushStage::AddressBranch { committed, url } => PushStageView::AddressBranch {
                committed,
                url: url@,
            },
            PushStage::Push { committed } => PushStageView::Push { committed },
            PushStage::Finished => PushStageView::Finished,
        }
    }
}

/// A synchronisation of a repository with its remote.
#[derive(Debug)]
pub struct PushJob {
    pub repo: String,
    pub message: String,
    pub auth: GitAuth,
    /// Whether the push runs in a window of its own; else its output is
    /// captured.
    pub show_console: bool,
    pub stage: PushStage,
}

/// What a synchronisation is to do.
pub struct PushPlan {
    pub repo: Seq<char>,
    pub message: Seq<char>,
    pub login: Option<(Seq<char>, Seq<char>)>,
    pub show_console: bool,
}

impl PushJob {
    /// The remote's address is asked for only where there is a login to put
    /// into it.
    pub open spec fn wf(&self) -> bool {
        self.stage is Address || self.stage is AddressBranch ==> self.auth is UserPassword
    }

    /// What the synchronisation is to do.
    pub open spec fn plan(&self) -> PushPlan {
        PushPlan {
            repo: self.repo@,
            message: self.message@,
            login: match self.auth {
                GitAuth::Domain => None,
                GitAuth::UserPassword { user, password } => Some((user@, password@)),
            },
            show_console: self.show_console,
        }
    }
}

/// The arguments without `--progress`.
pub open spec fn without_progress(args: Seq<Seq<char>>) -> Seq<Seq<char>>
    decreases args.len(),
{
    if args.len() == 0 {
        Seq::empty()
    } else if args.last() == "--progress"@ {
        without_progress(args.drop_last())
    } else {
        without_progress(args.drop_last()).push(args.last())
    }
}

/// The arguments of a push: in a window of its own it shows its progress.
pub open spec fn push_args(plan: PushPlan, args: Seq<Seq<char>>) -> Seq<Seq<char>> {
    if plan.show_console {
        args
    } else {
        without_progress(args)
    }
}

/// The message about a push that failed.
pub open spec fn push_failure(code: int, output: Seq<char>) -> Seq<char> {
    let tail = tail_of(output);
    if tail.len() == 0 {
        "git push упал с кодом "@ + text::dec_int(code)
    } else {
        "git push упал с кодом "@ + text::dec_int(code) + ": "@ + tail
    }
}

/// The output of a push as the log may show it.
pub open spec fn shown_output(plan: PushPlan, output: Seq<char>) -> Seq<char> {
    match plan.login {
        Some((_, password)) => without_secret(output, password),
        None => output,
    }
}

/// How the push begins: with the environment's credentials it is first seen
/// whether the branch has an upstream; with a login, where the remote is.
pub open spec fn push_start(plan: PushPlan, committed: bool) -> (
    PushStageView,
    ActionView<GitPushResult>,
) {
    match plan.login {
        None => (
            PushStageView::Upstream { committed },
            ActionView::Code(
                seq!["rev-parse"@, "--abbrev-ref"@, "--symbolic-full-name"@, "@{u}"@],
            ),
        ),
        Some(_) => (
            PushStageView::Address { committed },
            ActionView::Run(seq!["remote"@, "get-url"@, "origin"@]),
        ),
    }
}

/// The reply is one that the stage waits for.
pub open spec fn awaited(stage: PushStageView, reply: ReplyView) -> bool {
    match stage {
        PushStageView::Check | PushStageView::Diff | PushStageView::Upstream { .. } => reply is Code
            || reply is Failed,
        PushStageView::Push { .. } => reply is Pushed || reply is Failed,
        PushStageView::Finished => false,
        _ => reply is Output || reply is Failed,
    }
}

/// What a synchronisation does at a stage with a reply: the next stage and the
/// next action. A command that fails ends it with that failure.
pub open spec fn push_next(plan: PushPlan, stage: PushStageView, reply: ReplyView) -> (
    PushStageView,
    ActionView<GitPushResult>,
) {
    if reply is Failed {
        (PushStageView::Finished, ActionView::Finish(Err(reply->Failed_0)))
    } else {
        match stage {
            PushStageView::Check => if reply->Code_0 != 0 {
                (
                    PushStageView::Finished,
                    ActionView::Finish(Err(plan.repo + " не является git-репозиторием"@)),
                )
            } else {
                (PushStageView::Add, ActionView::Run(seq!["add"@, "-A"@]))
            },
            PushStageView::Add => (
                PushStageView::Diff,
                ActionView::Code(seq!["diff"@, "--cached"@, "--quiet"@]),
            ),
            PushStageView::Diff => if reply->Code_0 == 0 {
                push_start(plan, false)
            } else {
                (
                    PushStageView::Commit,
                    ActionView::Run(seq!["commit"@, "-m"@, plan.message]),
                )
            },
            PushStageView::Commit => push_start(plan, true),
            PushStageView::Upstream { committed } => if reply->Code_0 == 0 {
                (
                    PushStageView::Push { committed },
                    ActionView::Push(push_args(plan, seq!["push"@, "--progress"@])),
                )
            } else {
                (
                    PushStageView::Branch { committed },
                    ActionView::Run(seq!["rev-parse"@, "--abbrev-ref"@, "HEAD"@]),
                )
            },
            PushStageView::Branch { committed } => (
                PushStageView::Push { committed },
                ActionView::Push(
                    push_args(
                        plan,
                        seq![
                            "push"@,
                            "--progress"@,
                            "--set-upstream"@,
                            "origin"@,
                            text::trim(reply->Output_0),
                        ],
                    ),
                ),
            ),
            PushStageView::Address { committed } => {
                let url = text::trim(reply->Output_0);
                if url.len() == 0 {
                    (
                        PushStageView::Finished,
                        ActionView::Finish(Err("не удалось получить URL origin"@)),
                    )
                } else {
                    (
                        PushStageView::AddressBranch { committed, url },
                        ActionView::Run(seq!["rev-parse"@, "--abbrev-ref"@, "HEAD"@]),
                    )
                }
            },
            PushStageView::AddressBranch { committed, url } => {
                let (user, password) = plan.login->0;
                (
                    PushStageView::Push { committed },
                    ActionView::Push(
                        push_args(
                            plan,
                            seq![
                                "push"@,
                                "--progress"@,
                                with_login(url, user, password),
                                "HEAD:"@ + text::trim(reply->Output_0),
                            ],
                        ),
                    ),
                )
            },
            PushStageView::Push { committed } => if reply->Pushed_0 != 0 {
                (
                    PushStageView::Finished,
                    ActionView::Finish(
                        Err(push_failure(reply->Pushed_0, shown_output(plan, reply->Pushed_1))),
                    ),
                )
            } else {
                (
                    PushStageView::Finished,
                    ActionView::Finish(Ok(GitPushResult { committed, pushed: true })),
                )
            },
            PushStageView::Finished => (
                PushStageView::Finished,
                ActionView::Finish(Err(Seq::empty())),
            ),
        }
    }
}

/// The arguments without `--progress`.
fn drop_progress(args: &Vec<String>) -> (r: Vec<String>)
    ensures
        text::views(r@) == without_progress(text::views(args@)),
{
    let ghost all = text::views(args@);
    let mut out: Vec<String> = Vec::new();
    for i in 0..args.len()
        invariant
            all == text::views(args@),
            text::views(out@) == without_progress(all.take(i as int)),
    {
        assert(all.take(i + 1).drop_last() =~= all.take(i as int));
        if !text::same(&args[i], "--progress") {
            let ghost before = out@;
            out.push(args[i].clone());
            assert(text::views(out@) =~= text::views(before).push(all[i as int]));
        }
    }
    assert(all.take(all.len() as int) =~= all);
    out
}

impl PushJob {
    /// The arguments of a push.
    fn push_arg_list(&self, args: Vec<String>) -> (r: Vec<String>)
        ensures
            text::views(r@) == push_args(self.plan(), text::views(args@)),
    {
        if self.show_console {
            args
        } else {
            drop_progress(&args)
        }
    }

    /// Begins the push.
    fn start_push(&mut self, committed: bool) -> (r: GitAction<GitPushResult>)
        ensures
            final(self).wf(),
            final(self).plan() == old(self).plan(),
            (final(self).stage@, r@) == push_start(old(self).plan(), committed),
    {
        match &self.auth {
            GitAuth::Domain => {
                self.stage = PushStage::Upstream { committed };
                GitAction::Code(
                    text::list4("rev-parse", "--abbrev-ref", "--symbolic-full-name", "@{u}"),
                )
            },
            GitAuth::UserPassword { .. } => {
                self.stage = PushStage::Address { committed };
                GitAction::Run(text::list3("remote", "get-url", "origin"))
            },
        }
    }

    /// The output of a push as the log may show it: without the password.
    pub fn visible_output(&self, output: &str) -> (r: String)
        ensures
            r@ == shown_output(self.plan(), output@),
    {
        match &self.auth {
            GitAuth::Domain => output.to_owned(),
            GitAuth::UserPassword { password, .. } => mask_secret(output, password),
        }
    }

    /// Takes the reply to the last action and says what to do next.
    pub fn step(&mut self, reply: GitReply) -> (r: GitAction<GitPushResult>)
        requires
            awaited(old(self).stage@, reply@),
            old(self).wf(),
        ensures
            final(self).wf(),
            final(self).plan() == old(self).plan(),
            (final(self).stage@, r@) == push_next(old(self).plan(), old(self).stage@, reply@),
    {
        let mut stage = PushStage::Finished;
        core::mem::swap(&mut stage, &mut self.stage);
        match reply {
            GitReply::Failed(e) => GitAction::Finish(Err(e)),
            GitReply::Code(code) => match stage {
                PushStage::Check => {
                    if code != 0 {
                        let mut m = self.repo.clone();
                        m.append(" не является git-репозиторием");
                        GitAction::Finish(Err(m))
                    } else {
                        self.stage = PushStage::Add;
                        GitAction::Run(text::list2("add", "-A"))
                    }
                },
                PushStage::Diff => {
                    if code == 0 {
                        self.start_push(false)
                    } else {
                        self.stage = PushStage::Commit;
                        GitAction::Run(text::list3("commit", "-m", &self.message))
                    }
                },
                PushStage::Upstream { committed } => {
                    if code == 0 {
                        self.stage = PushStage::Push { committed };
                        GitAction::Push(self.push_arg_list(text::list2("push", "--progress")))
                    } else {
                        self.stage = PushStage::Branch { committed };
                        GitAction::Run(text::list3("rev-parse", "--abbrev-ref", "HEAD"))
                    }
                },
                _ => GitAction::Finish(Err(String::new())),
            },
            GitReply::Output(out) => match stage {
                PushStage::Add => {
                    self.stage = PushStage::Diff;
                    GitAction::Code(text::list3("diff", "--cached", "--quiet"))
                },
                PushStage::Commit => self.start_push(true),
                PushStage::Branch { committed } => {
                    let branch = text::trimmed(&out);
                    let args = text::list5(
                        "push",
                        "--progress",
                        "--set-upstream",
                        "origin",
                        &branch,
                    );
                    self.stage = PushStage::Push { committed };
                    GitAction::Push(self.push_arg_list(args))
                },
                PushStage::Address { committed } => {
                    let url = text::trimmed(&out);
                    if url.as_str().is_empty() {
                        GitAction::Finish(Err("не удалось получить URL origin".to_owned()))
                    } else {
                        self.stage = PushStage::AddressBranch { committed, url };
                        GitAction::Run(text::list3("rev-parse", "--abbrev-ref", "HEAD"))
                    }
                },
                PushStage::AddressBranch { committed, url } => {
                    let address = match &self.auth {
                        GitAuth::UserPassword { user, password } => inject_credentials(
                            &url,
                            user,
                            password,
                        ),
                        GitAuth::Domain => url,
                    };
                    let mut refspec = "HEAD:".to_owned();
                    let branch = text::trimmed(&out);
                    refspec.append(&branch);
                    let args = text::list4("push", "--progress", &address, &refspec);
                    self.stage = PushStage::Push { committed };
                    GitAction::Push(self.push_arg_list(args))
                },
                _ => GitAction::Finish(Err(String::new())),
            },
            GitReply::Pushed(code, out) => match stage {
                PushStage::Push { committed } => {
                    if code != 0 {
                        let shown = self.visible_output(&out);
                        let tail = error_tail(&shown);
                        let mut m = "git push упал с кодом ".to_owned();
                        let number = text::dec_int_of(code as i64);
                        m.append(&number);
                        if !tail.as_str().is_empty() {
                            m.append(": ");
                            m.append(&tail);
                        }
                        GitAction::Finish(Err(m))
                    } else {
                        GitAction::Finish(Ok(GitPushResult { committed, pushed: true }))
                    }
                },
                _ => GitAction::Finish(Err(String::new())),
            },
        }
    }
}

/// Begins `add`, `commit` where there is anything to commit, and `push`; the
/// push runs in a window of its own or with its output captured.
pub fn commit_and_push_with_console(
    repo: &str,
    commit_message: &str,
    auth: &GitAuth,
    show_console: bool,
) -> (r: (PushJob, GitAction<GitPushResult>))
    ensures
        r.0.repo@ == repo@,
        r.0.message@ == commit_message@,
        r.0.show_console == show_console,
        r.0.plan().login == (match *auth {
            GitAuth::Domain => None,
            GitAuth::UserPassword { user, password } => Some((user@, password@)),
        }),
        r.0.stage is Check,
        r.0.wf(),
        r.1@ == (ActionView::<GitPushResult>::Code(seq!["rev-parse"@, "--is-inside-work-tree"@])),
{
    let own = match auth {
        GitAuth::Domain => GitAuth::Domain,
        GitAuth::UserPassword { user, password } => GitAuth::UserPassword {
            user: user.clone(),
            password: password.clone(),
        },
    };
    let job = PushJob {
        repo: repo.to_owned(),
        message: commit_message.to_owned(),
        auth: own,
        show_console,
        stage: PushStage::Check,
    };
    (job, GitAction::Code(text::list2("rev-parse", "--is-inside-work-tree")))
}

/// Begins a synchronisation whose push runs in a window of its own.
pub fn commit_and_push(repo: &str, commit_message: &str, auth: &GitAuth) -> (r: (
    PushJob,
    GitAction<GitPushResult>,
))
    ensures
        r.0.repo@ == repo@,
        r.0.message@ == commit_message@,
        r.0.show_console,
        r.0.plan().login == (match *auth {
            GitAuth::Domain => None,
            GitAuth::UserPassword { user, password } => Some((user@, password@)),
        }),
        r.0.stage is Check,
        r.0.wf(),
        r.1@ == (ActionView::<GitPushResult>::Code(seq!["rev-parse"@, "--is-inside-work-tree"@])),
{
    commit_and_push_with_console(repo, commit_message, auth, true)
}

/// Where a synchronisation stands after the first `n` replies.
pub open spec fn push_after(plan: PushPlan, replies: Seq<ReplyView>, n: int) -> (
    PushStageView,
    ActionView<GitPushResult>,
)
    decreases n,
{
    if n <= 0 {
        (
            PushStageView::Check,
            ActionView::Code(seq!["rev-parse"@, "--is-inside-work-tree"@]),
        )
    } else {
        push_next(plan, push_after(plan, replies, n - 1).0, replies[n - 1])
    }
}

/// Whether a commit was made, at the stages after that is decided.
spec fn stage_committed(stage: PushStageView) -> Option<bool> {
    match stage {
        PushStageView::Upstream { committed } => Some(committed),
        PushStageView::Branch { committed } => Some(committed),
        PushStageView::Address { committed } => Some(committed),
        PushStageView::AddressBranch { committed, .. } => Some(committed),
        PushStageView::Push { committed } => Some(committed),
        _ => None,
    }
}

proof fn lemma_push_after(plan: PushPlan, replies: Seq<ReplyView>, n: int)
    requires
        0 <= n <= replies.len(),
    ensures
        push_after(plan, replies, n).0 is Finished || {
            let stage = push_after(plan, replies, n).0;
            let changed = replies[2]->Code_0 != 0;
            ||| n == 0 && stage is Check
            ||| n == 1 && stage is Add
            ||| n == 2 && stage is Diff
            ||| n == 3 && stage is Commit && changed
            ||| n >= 3 && stage_committed(stage) == Some(changed)
        },
    decreases n,
{
    if n > 0 {
        lemma_push_after(plan, replies, n - 1);
    }
}

/// A synchronisation that succeeds has pushed, the push having returned zero,
/// and says that it has committed exactly where the index had changes.
pub proof fn success_reports_the_commit(plan: PushPlan, replies: Seq<ReplyView>)
    requires
        forall|n: int|
            0 <= n < replies.len() ==> awaited(
                push_after(plan, replies, n).0,
                #[trigger] replies[n],
            ),
        push_after(plan, replies, replies.len() as int).1 matches ActionView::Finish(Ok(_)),
    ensures
        replies.len() > 3,
        push_after(plan, replies, replies.len() as int).1 == (ActionView::<
            GitPushResult,
        >::Finish(Ok(GitPushResult { committed: replies[2]->Code_0 != 0, pushed: true }))),
        push_after(plan, replies, replies.len() - 1).0 is Push,
        replies.last() matches ReplyView::Pushed(code, _) && code == 0,
{
    let n = replies.len() as int;
    if n > 0 {
        lemma_push_after(plan, replies, n - 1);
        assert(awaited(push_after(plan, replies, n - 1).0, replies[n - 1]));
    }
}

// The remote.

/// Where the preparation of a repository stands.
#[derive(Debug, Clone, Copy, PartialEq, Eq, Structural)]
pub enum RemoteStage {
    Check,
    Init,
    Probe,
    Read,
    Change,
    Finished,
}

/// The preparation of a repository for a push.
#[derive(Debug)]
pub struct RemoteJob {
    /// The address of the remote, as configured.
    pub url: String,
    pub stage: RemoteStage,
}

/// What follows once the directory is a repository: nothing without an
/// address, else a look at the remote.
pub open spec fn remote_start(url: Seq<char>) -> (RemoteStage, ActionView<()>) {
    if text::trim(url).len() == 0 {
        (RemoteStage::Finished, ActionView::Finish(Ok(())))
    } else {
        (RemoteStage::Probe, ActionView::Code(seq!["remote"@, "get-url"@, "origin"@]))
    }
}

/// The step that gives the repository its remote.
pub open spec fn add_remote(url: Seq<char>) -> (RemoteStage, ActionView<()>) {
    (
        RemoteStage::Change,
        ActionView::Run(seq!["remote"@, "add"@, "origin"@, text::trim(url)]),
    )
}

/// The reply is one that the stage waits for.
pub open spec fn remote_awaited(stage: RemoteStage, reply: ReplyView) -> bool {
    match stage {
        RemoteStage::Check | RemoteStage::Probe => reply is Code || reply is Failed,
        RemoteStage::Finished => false,
        _ => reply is Output || reply is Failed,
    }
}

/// What the preparation does at a stage with a reply. A directory that is no
/// repository is made one; a missing remote is added, another one is changed.
/// That git cannot tell whether there is a remote counts as there being none.
pub open spec fn remote_next(url: Seq<char>, stage: RemoteStage, reply: ReplyView) -> (
    RemoteStage,
    ActionView<()>,
) {
    match stage {
        RemoteStage::Check => if reply matches ReplyView::Code(c) && c == 0 {
            remote_start(url)
        } else {
            (RemoteStage::Init, ActionView::Run(seq!["init"@, "-b"@, "main"@]))
        },
        RemoteStage::Init => match reply {
            ReplyView::Failed(e) => (RemoteStage::Finished, ActionView::Finish(Err(e))),
            _ => remote_start(url),
        },
        RemoteStage::Probe => if reply matches ReplyView::Code(c) && c == 0 {
            (RemoteStage::Read, ActionView::Run(seq!["remote"@, "get-url"@, "origin"@]))
        } else {
            add_remote(url)
        },
        RemoteStage::Read => match reply {
            ReplyView::Output(current) => if text::trim(current) == text::trim(url) {
                (RemoteStage::Finished, ActionView::Finish(Ok(())))
            } else {
                (
                    RemoteStage::Change,
                    ActionView::Run(seq!["remote"@, "set-url"@, "origin"@, text::trim(url)]),
                )
            },
            _ => add_remote(url),
        },
        RemoteStage::Change => match reply {
            ReplyView::Failed(e) => (RemoteStage::Finished, ActionView::Finish(Err(e))),
            _ => (RemoteStage::Finished, ActionView::Finish(Ok(()))),
        },
        RemoteStage::Finished => (RemoteStage::Finished, ActionView::Finish(Ok(()))),
    }
}

/// Begins to prepare a repository for a push: makes the directory a
/// repository where it is none, and gives it the remote.
pub fn ensure_repo_and_remote(remote_url: &str) -> (r: (RemoteJob, GitAction<()>))
    ensures
        r.0.url@ == remote_url@,
        r.0.stage is Check,
        r.1@ == (ActionView::<()>::Code(seq!["rev-parse"@, "--is-inside-work-tree"@])),
{
    let job = RemoteJob { url: remote_url.to_owned(), stage: RemoteStage::Check };
    (job, GitAction::Code(text::list2("rev-parse", "--is-inside-work-tree")))
}

impl RemoteJob {
    /// What follows once the directory is a repository.
    fn start_remote(&mut self) -> (r: GitAction<()>)
        ensures
            final(self).url == old(self).url,
            (final(self).stage, r@) == remote_start(old(self).url@),
    {
        if text::trimmed(&self.url).as_str().is_empty() {
            self.stage = RemoteStage::Finished;
            GitAction::Finish(Ok(()))
        } else {
            self.stage = RemoteStage::Probe;
            GitAction::Code(text::list3("remote", "get-url", "origin"))
        }
    }

    /// Gives the repository its remote.
    fn add(&mut self) -> (r: GitAction<()>)
        ensures
            final(self).url == old(self).url,
            (final(self).stage, r@) == add_remote(old(self).url@),
    {
        self.stage = RemoteStage::Change;
        let url = text::trimmed(&self.url);
        GitAction::Run(text::list4("remote", "add", "origin", &url))
    }

    /// Takes the reply to the last action and says what to do next.
    pub fn step(&mut self, reply: GitReply) -> (r: GitAction<()>)
        requires
            remote_awaited(old(self).stage, reply@),
        ensures
            final(self).url == old(self).url,
            (final(self).stage, r@) == remote_next(old(self).url@, old(self).stage, reply@),
    {
        match self.stage {
            RemoteStage::Check => {
                if let GitReply::Code(code) = reply {
                    if code == 0 {
                        return self.start_remote();
                    }
                }
                self.stage = RemoteStage::Init;
                GitAction::Run(text::list3("init", "-b", "main"))
            },
            RemoteStage::Init => {
                if let GitReply::Failed(e) = reply {
                    self.stage = RemoteStage::Finished;
                    return GitAction::Finish(Err(e));
                }
                self.start_remote()
            },
            RemoteStage::Probe => {
                if let GitReply::Code(code) = reply {
                    if code == 0 {
                        self.stage = RemoteStage::Read;
                        return GitAction::Run(text::list3("remote", "get-url", "origin"));
                    }
                }
                self.add()
            },
            RemoteStage::Read => {
                if let GitReply::Output(current) = reply {
                    let url = text::trimmed(&self.url);
                    if text::same(&text::trimmed(&current), &url) {
                        self.stage = RemoteStage::Finished;
                        return GitAction::Finish(Ok(()));
                    }
                    self.stage = RemoteStage::Change;
                    return GitAction::Run(text::list4("remote", "set-url", "origin", &url));
                }
                self.add()
            },
            RemoteStage::Change => {
                self.stage = RemoteStage::Finished;
                if let GitReply::Failed(e) = reply {
                    return GitAction::Finish(Err(e));
                }
                GitAction::Finish(Ok(()))
            },
            RemoteStage::Finished => GitAction::Finish(Ok(())),
        }
    }
}

// The commit message.

/// A number below one hundred in two digits.
pub open spec fn two_digits(n: nat) -> Seq<char> {
    seq![text::digit(n / 10 % 10), text::digit(n % 10)]
}

/// A year in at least four digits; outside the years 0 to 9999 with its sign.
pub open spec fn year_digits(y: int) -> Seq<char> {
    let n = if y < 0 {
        (-y) as nat
    } else {
        y as nat
    };
    let digits = if n < 10000 {
        two_digits(n / 100) + two_digits(n % 100)
    } else {
        text::dec(n)
    };
    if y < 0 {
        seq!['-'] + digits
    } else if y > 9999 {
        seq!['+'] + digits
    } else {
        digits
    }
}

/// The message of a commit made on a day.
pub open spec fn message_on(year: int, month: int, day: int) -> Seq<char> {
    "Update_"@ + year_digits(year) + two_digits(month as nat) + two_digits(day as nat)
}

/// Appends a number below one hundred in two digits.
fn push_two(out: &mut String, n: u32)
    ensures
        final(out)@ == old(out)@ + two_digits(n as nat),
{
    let ghost before = out@;
    let tens: u8 = (n / 10 % 10) as u8;
    let ones: u8 = (n % 10) as u8;
    out.push((48 + tens) as char);
    out.push((48 + ones) as char);
    assert(out@ =~= before + two_digits(n as nat));
}

/// The message of a commit made on a day: `Update_` and the date.
pub fn commit_message_on(year: i32, month: u32, day: u32) -> (r: String)
    requires
        -1_000_000 < year < 1_000_000,
    ensures
        r@ == message_on(year as int, month as int, day as int),
{
    let mut out = "Update_".to_owned();
    let n: u32 = if year < 0 {
        (-year) as u32
    } else {
        year as u32
    };
    let mut number = String::new();
    if year < 0 {
        number.push('-');
    } else if year > 9999 {
        number.push('+');
    }
    let ghost sign = number@;
    if n < 10000 {
        push_two(&mut number, n / 100);
        push_two(&mut number, n % 100);
        assert(number@ =~= sign + (two_digits((n / 100) as nat) + two_digits((n % 100) as nat)));
    } else {
        let digits = text::dec_of(n as u64);
        number.append(&digits);
    }
    assert(number@ =~= year_digits(year as int)) by {
        if year < 0 {
            assert(sign =~= seq!['-']);
        } else if year > 9999 {
            assert(sign =~= seq!['+']);
        }
    }
    out.append(&number);
    push_two(&mut out, month);
    push_two(&mut out, day);
    out
}

/// The message of a commit made today.
pub fn default_commit_message() -> (r: String)
    ensures
        exists|year: int, month: int, day: int|
            1 <= month <= 12 && 1 <= day <= 31 && r@ == #[trigger] message_on(year, month, day),
{
    let (year, month, day) = local_date();
    commit_message_on(year, month, day)
}

/// `chrono::Local::now()` and its year, month and day: the calendar date of
/// the moment in the machine's time zone, of which only the ranges are known.
#[verifier::external_body]
fn local_date() -> (r: (i32, u32, u32))
    ensures
        -1_000_000 < r.0 < 1_000_000,
        1 <= r.1 <= 12,
        1 <= r.2 <= 31,
{
    let now = chrono::Local::now();
    (chrono::Datelike::year(&now), chrono::Datelike::month(&now), chrono::Datelike::day(&now))
}

// Laws of addresses, commands and sizes.

/// A login stands in an address behind its scheme and before its host; one that
/// stood there gives way. An address without a scheme stays as it is.
#[verifier::rlimit(40)]
pub proof fn login_stands_before_the_host(
    scheme: Seq<char>,
    earlier: Seq<char>,
    host: Seq<char>,
    user: Seq<char>,
    password: Seq<char>,
)
    requires
        scheme.len() > 0,
        !scheme.contains(':'),
        !text::is_space(scheme[0]),
        !host.contains('@'),
        host.len() > 0 && !text::is_space(host.last()),
        !earlier.contains('@'),
        !earlier.contains('/'),
    ensures
        with_login(scheme + "://"@ + host, user, password) == scheme + "://"@ + encoded(user) + ":"@
            + encoded(password) + "@"@ + host,
        with_login(scheme + "://"@ + earlier + "@"@ + host, user, password) == scheme + "://"@
            + encoded(user) + ":"@ + encoded(password) + "@"@ + host,
{
    reveal_strlit("://");
    reveal_strlit("@");
    reveal_strlit("/");
    let a = scheme + "://"@ + host;
    let b = scheme + "://"@ + earlier + "@"@ + host;
    let n = scheme.len() as int;
    lemma_scheme_found(scheme, host);
    assert(b =~= scheme + "://"@ + (earlier + "@"@ + host));
    lemma_scheme_found(scheme, earlier + "@"@ + host);
    text::lemma_trim_id(a);
    text::lemma_trim_id(b);
    assert(a.skip(n + 3) =~= host);
    assert(b.skip(n + 3) =~= earlier + "@"@ + host);
    assert(a.take(n + 3) =~= scheme + "://"@);
    assert(b.take(n + 3) =~= scheme + "://"@);
    text::first_place_is_found(host, "@"@);
    if let Some(k) = text::find(host, "@"@) {
        assert(host.subrange(k, k + 1)[0] == host[k]);
        assert(host.contains('@'));
    }
    let rest = earlier + "@"@ + host;
    let m = earlier.len() as int;
    assert(rest[m] == '@');
    assert(rest.subrange(m, m + 1) =~= "@"@);
    assert forall|j: int| 0 <= j < m implies !#[trigger] text::occurs_at(rest, "@"@, j) by {
        if text::occurs_at(rest, "@"@, j) {
            assert(rest.subrange(j, j + 1)[0] == earlier[j]);
            assert(earlier.contains('@'));
        }
    }
    text::lemma_found(rest, "@"@, m);
    text::first_place_is_found(rest, "/"@);
    if let Some(k) = text::find(rest, "/"@) {
        if k <= m {
            assert(rest.subrange(k, k + 1)[0] == rest[k]);
            if k < m {
                assert(earlier[k] == '/');
                assert(earlier.contains('/'));
            }
        }
    }
    assert(rest.skip(m + 1) =~= host);
}

proof fn lemma_scheme_found(scheme: Seq<char>, rest: Seq<char>)
    requires
        !scheme.contains(':'),
    ensures
        text::find(scheme + "://"@ + rest, "://"@) == Some(scheme.len() as int),
{
    reveal_strlit("://");
    let s = scheme + "://"@ + rest;
    let n = scheme.len() as int;
    assert(s.subrange(n, n + 3) =~= "://"@);
    assert forall|j: int| 0 <= j < n implies !#[trigger] text::occurs_at(s, "://"@, j) by {
        if text::occurs_at(s, "://"@, j) {
            assert(s.subrange(j, j + 3)[0] == scheme[j]);
            assert(scheme.contains(':'));
        }
    }
    text::lemma_found(s, "://"@, n);
}

/// An address without a scheme takes no login.
pub proof fn plain_path_takes_no_login(url: Seq<char>, user: Seq<char>, password: Seq<char>)
    requires
        !text::has(text::trim(url), "://"@),
    ensures
        with_login(url, user, password) == text::trim(url),
{
}

/// What means something in an address is encoded, character by character, and
/// nothing else.
pub proof fn signs_of_addresses_are_encoded(s: Seq<char>, c: char)
    ensures
        encoded(s.push(c)) == encoded(s) + match c {
            '@' => "%40"@,
            ':' => "%3A"@,
            '/' => "%2F"@,
            '#' => "%23"@,
            '?' => "%3F"@,
            ' ' => "%20"@,
            _ => seq![c],
        },
        encoded(Seq::empty()).len() == 0,
{
    assert(s.push(c).drop_last() =~= s);
}

/// The password of an address is masked, and nothing else of it.
#[verifier::rlimit(40)]
pub proof fn password_of_an_address_is_masked(
    user: Seq<char>,
    password: Seq<char>,
    host: Seq<char>,
)
    requires
        !user.contains('@') && !user.contains(':'),
        !password.contains('@'),
    ensures
        masked_authority(user + ":"@ + password + "@"@ + host) == user + ":***"@ + "@"@ + host,
        !host.contains('@') ==> masked_authority(host) == host,
{
    reveal_strlit("@");
    reveal_strlit(":");
    let a = user + ":"@ + password + "@"@ + host;
    let c = user.len() as int;
    let t = c + 1 + password.len();
    assert(a.subrange(c, c + 1) =~= ":"@);
    assert(a.subrange(t, t + 1) =~= "@"@);
    assert forall|j: int| 0 <= j < c implies !#[trigger] text::occurs_at(a, ":"@, j) by {
        if text::occurs_at(a, ":"@, j) {
            assert(a.subrange(j, j + 1)[0] == user[j]);
            assert(user.contains(':'));
        }
    }
    text::lemma_found(a, ":"@, c);
    assert forall|j: int| 0 <= j < t implies !#[trigger] text::occurs_at(a, "@"@, j) by {
        if text::occurs_at(a, "@"@, j) {
            assert(a.subrange(j, j + 1)[0] == a[j]);
            if j < c {
                assert(user[j] == '@');
                assert(user.contains('@'));
            } else if j > c {
                assert(password[j - c - 1] == '@');
                assert(password.contains('@'));
            }
        }
    }
    text::lemma_found(a, "@"@, t);
    assert(a.take(c) =~= user);
    assert(a.skip(t) =~= "@"@ + host);
    assert(user + ":***"@ + ("@"@ + host) =~= user + ":***"@ + "@"@ + host);
    text::first_place_is_found(host, "@"@);
    if let Some(k) = text::find(host, "@"@) {
        assert(host.subrange(k, k + 1)[0] == host[k]);
        assert(host.contains('@'));
    }
}

/// Every address of a text is masked: its scheme is kept, the part up to the
/// next stroke or white space is masked, and what follows is dealt with alike.
pub proof fn every_address_is_masked(
    scheme: Seq<char>,
    authority: Seq<char>,
    rest: Seq<char>,
)
    requires
        !scheme.contains(':'),
        forall|i: int|
            0 <= i < authority.len() ==> #[trigger] authority[i] != '/' && !text::is_space(
                authority[i],
            ),
        rest.len() > 0 ==> rest[0] == '/' || text::is_space(rest[0]),
    ensures
        masked_urls(scheme + "://"@ + authority + rest) == scheme + "://"@ + masked_authority(
            authority,
        ) + masked_urls(rest),
{
    reveal_strlit("://");
    let s = scheme + "://"@ + authority + rest;
    let n = scheme.len() as int;
    assert(s =~= scheme + "://"@ + (authority + rest));
    lemma_scheme_found(scheme, authority + rest);
    assert(s.skip(n + 3) =~= authority + rest);
    assert(s.take(n + 3) =~= scheme + "://"@);
    lemma_authority_ends(authority, rest);
    assert((authority + rest).take(authority.len() as int) =~= authority);
    assert((authority + rest).skip(authority.len() as int) =~= rest);
}

proof fn lemma_authority_ends(a: Seq<char>, rest: Seq<char>)
    requires
        forall|i: int| 0 <= i < a.len() ==> #[trigger] a[i] != '/' && !text::is_space(a[i]),
        rest.len() > 0 ==> rest[0] == '/' || text::is_space(rest[0]),
    ensures
        authority_len(a + rest) == a.len(),
    decreases a.len(),
{
    let s = a + rest;
    if a.len() > 0 {
        assert(s[0] == a[0]);
        let b = a.skip(1);
        assert forall|i: int| 0 <= i < b.len() implies #[trigger] b[i] != '/' && !text::is_space(
            b[i],
        ) by {
            assert(b[i] == a[i + 1]);
        }
        lemma_authority_ends(b, rest);
        assert(s.skip(1) =~= b + rest);
    } else {
        assert(s =~= rest);
    }
}

/// A text that holds no secret is shown as it is.
pub proof fn text_without_secret_is_unchanged(text: Seq<char>, secret: Seq<char>)
    requires
        secret.len() == 0 || (!text::has(text, secret) && !text::has(text, encoded(secret))),
    ensures
        without_secret(text, secret) == text,
{
    if secret.len() > 0 {
        lemma_nothing_replaced(text, secret, "***"@);
        lemma_nothing_replaced(text, encoded(secret), "***"@);
    }
}

proof fn lemma_nothing_replaced(s: Seq<char>, p: Seq<char>, t: Seq<char>)
    requires
        !text::has(s, p),
    ensures
        text::replace(s, p, t) == s,
    decreases s.len(),
{
    text::first_place_is_found(s, p);
    if p.len() > 0 && p.len() <= s.len() {
        let none = 0int;
        assert(s.subrange(none, none + p.len()) =~= s.take(p.len() as int));
        assert(!text::starts(s, p));
        let u = s.skip(1);
        text::first_place_is_found(u, p);
        if text::has(u, p) {
            let k = text::find(u, p)->0;
            let at = k + 1;
            assert(s.subrange(at, at + p.len()) =~= u.subrange(k, k + p.len()));
        }
        lemma_nothing_replaced(u, p, t);
        assert(seq![s[0]] + u =~= s);
    }
}

/// The end of an output that is reported is its last three lines that are not
/// blank, trimmed, cut after three hundred characters.
pub proof fn last_three_lines_are_reported(lines: Seq<Seq<char>>, more: Seq<char>, s: Seq<char>)
    ensures
        meaningful(lines.push(more)) == if text::trim(more).len() == 0 {
            meaningful(lines)
        } else {
            meaningful(lines).push(text::trim(more))
        },
        tail_of(s) == ({
            let m = meaningful(text::lines(s));
            let last = if m.len() <= 3 {
                m
            } else {
                m.subrange(m.len() - 3, m.len() as int)
            };
            let joined = text::join(last, "; "@);
            if joined.len() > 300 {
                joined.take(300) + "…"@
            } else {
                joined
            }
        }),
{
    assert(lines.push(more).drop_last() =~= lines);
    let m = meaningful(text::lines(s));
    if m.len() > 3 {
        assert(m.skip(m.len() - 3) =~= m.subrange(m.len() - 3, m.len() as int));
    }
}

/// Every command has the setting of line ends that was asked for, and packs
/// nothing by itself.
pub proof fn settings_are_handed_over(autocrlf: Seq<char>)
    ensures
        text::trim(autocrlf).len() == 0 ==> config_arg_list(autocrlf) == seq!["-c"@, "gc.auto=0"@],
        text::trim(autocrlf).len() > 0 ==> config_arg_list(autocrlf) == seq![
            "-c"@,
            "core.autocrlf="@ + text::trim(autocrlf),
            "-c"@,
            "gc.auto=0"@,
        ],
        gc_arg_list(true) == seq!["gc"@, "--aggressive"@, "--prune=now"@],
        gc_arg_list(false) == seq!["-c"@, "gc.auto=6700"@, "gc"@, "--auto"@],
{
}

/// A size below a kibibyte is written in bytes. A larger one, up to what a
/// number with a fraction holds exactly, is written in the largest unit that it
/// reaches, with two digits behind the point, rounded to the nearest.
#[verifier::rlimit(40)]
pub proof fn sizes_are_rounded_to_hundredths(bytes: nat) -> (h: nat)
    requires
        bytes < 0x20_0000_0000_0000,
    ensures
        bytes < 1024 ==> size_text(bytes) == text::dec(bytes) + " B"@,
        bytes >= 1024 ==> ({
            let (unit, name) = if bytes >= 1073741824 {
                (1073741824nat, " GiB"@)
            } else if bytes >= 1048576 {
                (1048576nat, " MiB"@)
            } else {
                (1024nat, " KiB"@)
            };
            &&& size_text(bytes) == text::dec(h / 100) + "."@ + seq![
                text::digit(h / 10 % 10),
                text::digit(h % 10),
            ] + name
            &&& 2 * (h * unit - bytes * 100) <= unit
            &&& 2 * (bytes * 100 - h * unit) <= unit
        }),
{
    assert(double_spacing(bytes) == 1);
    assert(bytes / 1 == bytes && bytes % 1 == 0);
    assert(round_half_even(bytes, 1) == bytes);
    assert(nearest_double(bytes) == bytes);
    let unit: nat = if bytes >= 1073741824 {
        1073741824
    } else if bytes >= 1048576 {
        1048576
    } else {
        1024
    };
    let num = bytes * 100;
    let h = round_half_even(num, unit);
    lemma_rounded(num, unit);
    h
}

proof fn lemma_rounded(num: nat, den: nat)
    requires
        den > 0,
    ensures
        2 * (round_half_even(num, den) * den - num) <= den,
        2 * (num - round_half_even(num, den) * den) <= den,
{
    let q = num / den;
    let r = num % den;
    vstd::arithmetic::div_mod::lemma_fundamental_div_mod(num as int, den as int);
    vstd::arithmetic::mul::lemma_mul_is_commutative(q as int, den as int);
    vstd::arithmetic::mul::lemma_mul_is_distributive_add_other_way(den as int, q as int, 1);
}

/// Sizes are added up, every one.
pub proof fn sizes_are_added_up(sizes: Seq<u64>, more: u64)
    ensures
        sum_of(sizes.push(more)) == sum_of(sizes) + more,
        sum_of(Seq::empty()) == 0,
{
    assert(sizes.push(more).drop_last() =~= sizes);
}

/// Progress is shown in a console alone; every other word of a push stays.
pub proof fn progress_is_for_consoles(plan: PushPlan, args: Seq<Seq<char>>, more: Seq<char>)
    ensures
        plan.show_console ==> push_args(plan, args) == args,
        !plan.show_console ==> push_args(plan, args.push(more)) == if more == "--progress"@ {
            push_args(plan, args)
        } else {
            push_args(plan, args).push(more)
        },
        !plan.show_console ==> push_args(plan, Seq::empty()).len() == 0,
{
    assert(args.push(more).drop_last() =~= args);
}

/// A synchronisation adds all changes, commits them under its message where
/// there are any, and pushes in every case. Without a login it pushes where the
/// branch is followed, or sets that up; with one it pushes the branch to the
/// address with the login. Each failure ends it, and a failed push reports the end
/// of its output without the password.
#[verifier::rlimit(40)]
pub proof fn synchronisation_takes_its_course(
    plan: PushPlan,
    committed: bool,
    url: Seq<char>,
    code: int,
    output: Seq<char>,
)
    ensures
        push_after(plan, Seq::empty(), 0) == (
            PushStageView::Check,
            ActionView::<GitPushResult>::Code(seq!["rev-parse"@, "--is-inside-work-tree"@]),
        ),
        push_next(plan, PushStageView::Check, ReplyView::Code(code)) == if code == 0 {
            (PushStageView::Add, ActionView::<GitPushResult>::Run(seq!["add"@, "-A"@]))
        } else {
            (
                PushStageView::Finished,
                ActionView::<GitPushResult>::Finish(Err(plan.repo + " не является git-репозиторием"@)),
            )
        },
        push_next(plan, PushStageView::Add, ReplyView::Output(output)) == (
            PushStageView::Diff,
            ActionView::<GitPushResult>::Code(seq!["diff"@, "--cached"@, "--quiet"@]),
        ),
        code != 0 ==> push_next(plan, PushStageView::Diff, ReplyView::Code(code)) == (
            PushStageView::Commit,
            ActionView::<GitPushResult>::Run(seq!["commit"@, "-m"@, plan.message]),
        ),
        plan.login is None ==> push_next(plan, PushStageView::Diff, ReplyView::Code(0)) == (
            PushStageView::Upstream { committed: false },
            ActionView::<GitPushResult>::Code(
                seq!["rev-parse"@, "--abbrev-ref"@, "--symbolic-full-name"@, "@{u}"@],
            ),
        ) && push_next(plan, PushStageView::Commit, ReplyView::Output(output)) == (
            PushStageView::Upstream { committed: true },
            ActionView::<GitPushResult>::Code(
                seq!["rev-parse"@, "--abbrev-ref"@, "--symbolic-full-name"@, "@{u}"@],
            ),
        ),
        plan.login is Some ==> push_next(plan, PushStageView::Diff, ReplyView::Code(0)) == (
            PushStageView::Address { committed: false },
            ActionView::<GitPushResult>::Run(seq!["remote"@, "get-url"@, "origin"@]),
        ) && push_next(plan, PushStageView::Commit, ReplyView::Output(output)) == (
            PushStageView::Address { committed: true },
            ActionView::<GitPushResult>::Run(seq!["remote"@, "get-url"@, "origin"@]),
        ),
        plan.show_console ==> push_next(
            plan,
            PushStageView::Upstream { committed },
            ReplyView::Code(0),
        ) == (
            PushStageView::Push { committed },
            ActionView::<GitPushResult>::Push(seq!["push"@, "--progress"@]),
        ),
        code != 0 ==> push_next(
            plan,
            PushStageView::Upstream { committed },
            ReplyView::Code(code),
        ) == (
            PushStageView::Branch { committed },
            ActionView::<GitPushResult>::Run(seq!["rev-parse"@, "--abbrev-ref"@, "HEAD"@]),
        ),
        plan.show_console ==> push_next(
            plan,
            PushStageView::Branch { committed },
            ReplyView::Output(output),
        ) == (
            PushStageView::Push { committed },
            ActionView::<GitPushResult>::Push(
                seq![
                    "push"@,
                    "--progress"@,
                    "--set-upstream"@,
                    "origin"@,
                    text::trim(output),
                ],
            ),
        ),
        push_next(plan, PushStageView::Address { committed }, ReplyView::Output(output)) == if text::trim(
            output,
        ).len() == 0 {
            (
                PushStageView::Finished,
                ActionView::<GitPushResult>::Finish(Err("не удалось получить URL origin"@)),
            )
        } else {
            (
                PushStageView::AddressBranch { committed, url: text::trim(output) },
                ActionView::<GitPushResult>::Run(seq!["rev-parse"@, "--abbrev-ref"@, "HEAD"@]),
            )
        },
        plan.login matches Some((user, password)) ==> (plan.show_console ==> push_next(
            plan,
            PushStageView::AddressBranch { committed, url },
            ReplyView::Output(output),
        ) == (
            PushStageView::Push { committed },
            ActionView::<GitPushResult>::Push(
                seq![
                    "push"@,
                    "--progress"@,
                    with_login(url, user, password),
                    "HEAD:"@ + text::trim(output),
                ],
            ),
        )),
        push_next(plan, PushStageView::Push { committed }, ReplyView::Pushed(0, output)).1
            == (ActionView::<GitPushResult>::Finish(
            Ok(GitPushResult { committed, pushed: true }),
        )),
        code != 0 ==> push_next(
            plan,
            PushStageView::Push { committed },
            ReplyView::Pushed(code, output),
        ).1 == (ActionView::<GitPushResult>::Finish(
            Err(
                push_failure(
                    code,
                    match plan.login {
                        Some((_, password)) => without_secret(output, password),
                        None => output,
                    },
                ),
            ),
        )),
{
    reveal_with_fuel(push_after, 1);
}

/// A push that failed is reported with its code and the end of its output.
pub proof fn failures_tell_their_code(args: Seq<Seq<char>>, code: int, output: Seq<char>)
    ensures
        git_failure(args, code) == "git "@ + text::join(args, " "@) + " упал с кодом "@
            + text::dec_int(code),
        tail_of(output).len() == 0 ==> push_failure(code, output) == "git push упал с кодом "@
            + text::dec_int(code),
        tail_of(output).len() > 0 ==> push_failure(code, output) == "git push упал с кодом "@
            + text::dec_int(code) + ": "@ + tail_of(output),
{
}

/// A failure at any point ends a synchronisation with its own words.
pub proof fn failure_ends_the_synchronisation(plan: PushPlan, stage: PushStageView, e: Seq<char>)
    ensures
        push_next(plan, stage, ReplyView::Failed(e)) == (
            PushStageView::Finished,
            ActionView::<GitPushResult>::Finish(Err(e)),
        ),
{
}

/// A repository is made where there is none. Its remote is set where an address
/// is given: added where there is none, changed where it is another, left alone
/// where it is the same.
pub proof fn remote_is_set_to_the_address(
    url: Seq<char>,
    code: int,
    current: Seq<char>,
    e: Seq<char>,
)
    ensures
        ({
            let u = text::trim(url);
            let probe = (
                RemoteStage::Probe,
                ActionView::<()>::Code(seq!["remote"@, "get-url"@, "origin"@]),
            );
            let done = (RemoteStage::Finished, ActionView::<()>::Finish(Ok(())));
            let add = (
                RemoteStage::Change,
                ActionView::<()>::Run(seq!["remote"@, "add"@, "origin"@, u]),
            );
            &&& code != 0 ==> remote_next(url, RemoteStage::Check, ReplyView::Code(code)) == (
                RemoteStage::Init,
                ActionView::<()>::Run(seq!["init"@, "-b"@, "main"@]),
            )
            &&& remote_next(url, RemoteStage::Check, ReplyView::Code(0)) == if u.len() > 0 {
                probe
            } else {
                done
            }
            &&& remote_next(url, RemoteStage::Init, ReplyView::Output(current)) == if u.len() > 0 {
                probe
            } else {
                done
            }
            &&& code != 0 ==> remote_next(url, RemoteStage::Probe, ReplyView::Code(code)) == add
            &&& remote_next(url, RemoteStage::Probe, ReplyView::Code(0)) == (
                RemoteStage::Read,
                ActionView::<()>::Run(seq!["remote"@, "get-url"@, "origin"@]),
            )
            &&& remote_next(url, RemoteStage::Read, ReplyView::Output(current)) == if text::trim(
                current,
            ) == u {
                done
            } else {
                (
                    RemoteStage::Change,
                    ActionView::<()>::Run(seq!["remote"@, "set-url"@, "origin"@, u]),
                )
            }
            &&& remote_next(url, RemoteStage::Read, ReplyView::Failed(e)) == add
            &&& remote_next(url, RemoteStage::Change, ReplyView::Output(current)) == done
            &&& remote_next(url, RemoteStage::Change, ReplyView::Failed(e)) == (
                RemoteStage::Finished,
                ActionView::<()>::Finish(Err(e)),
            )
            &&& remote_next(url, RemoteStage::Init, ReplyView::Failed(e)) == (
                RemoteStage::Finished,
                ActionView::<()>::Finish(Err(e)),
            )
        }),
{
}

proof fn lemma_year_digits(y: int)
    requires
        0 <= y <= 9999,
    ensures
        year_digits(y) == seq![
            text::digit((y / 1000) as nat),
            text::digit((y / 100 % 10) as nat),
            text::digit((y / 10 % 10) as nat),
            text::digit((y % 10) as nat),
        ],
{
    lemma_parts_of_a_year(y);
}

proof fn lemma_parts_of_a_year(y: int)
    requires
        0 <= y <= 9999,
    ensures
        y / 100 / 10 % 10 == y / 1000,
        y % 100 / 10 % 10 == y / 10 % 10,
        y % 100 % 10 == y % 10,
{
    let q = y / 100;
    let r = y % 100;
    assert(y == 100 * q + r && 0 <= r < 100 && 0 <= q < 100);
    let a = q / 10;
    let b = q % 10;
    assert(q == 10 * a + b && 0 <= b < 10 && 0 <= a < 10);
    let c = r / 10;
    let d = r % 10;
    assert(r == 10 * c + d && 0 <= d < 10 && 0 <= c < 10);
    assert(y == 1000 * a + 100 * b + 10 * c + d);
    assert(y / 1000 == a);
    assert(y / 10 == 100 * a + 10 * b + c);
    assert(y / 10 % 10 == c);
    assert(y % 10 == d);
    assert(a % 10 == a && c % 10 == c);
}

proof fn lemma_two_digits(n: int)
    requires
        0 <= n < 100,
    ensures
        two_digits(n as nat) == seq![text::digit((n / 10) as nat), text::digit((n % 10) as nat)],
{
    assert(n / 10 % 10 == n / 10);
}

/// The message of a day is the date without signs between its parts.
#[verifier::rlimit(40)]
pub proof fn message_is_the_date(year: int, month: int, day: int)
    requires
        0 <= year <= 9999,
        1 <= month <= 12,
        1 <= day <= 31,
    ensures
        message_on(year, month, day) == "Update_"@ + seq![
            text::digit((year / 1000) as nat),
            text::digit((year / 100 % 10) as nat),
            text::digit((year / 10 % 10) as nat),
            text::digit((year % 10) as nat),
            text::digit((month / 10) as nat),
            text::digit((month % 10) as nat),
            text::digit((day / 10) as nat),
            text::digit((day % 10) as nat),
        ],
{
    let s = message_on(year, month, day);
    lemma_year_digits(year);
    lemma_two_digits(month);
    lemma_two_digits(day);
    assert(s =~= "Update_"@ + seq![
        text::digit((year / 1000) as nat),
        text::digit((year / 100 % 10) as nat),
        text::digit((year / 10 % 10) as nat),
        text::digit((year % 10) as nat),
        text::digit((month / 10) as nat),
        text::digit((month % 10) as nat),
        text::digit((day / 10) as nat),
        text::digit((day % 10) as nat),
    ]);
}

/// A synchronisation is made as it was asked for: of its repository, under its
/// message, with its login where it has one.
pub proof fn plan_is_that_of_the_job(job: PushJob)
    ensures
        job.plan().repo == job.repo@,
        job.plan().message == job.message@,
        job.plan().show_console == job.show_console,
        job.auth is Domain ==> job.plan().login is None,
        job.auth matches GitAuth::UserPassword { user, password } ==> job.plan().login == Some(
            (user@, password@),
        ),
{
}

} // verus!
