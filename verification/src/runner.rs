//! Commands of outside programs: what is written to the log about them and
//! what is made of their output.

use vstd::prelude::*;

use crate::codec;
use crate::text;

verus! {

/// The outcome of an outside command.
#[derive(Debug, Clone, PartialEq, Eq)]
pub struct CommandResult {
    pub success: bool,
    pub return_code: i32,
    pub stdout: String,
    pub stderr: String,
}

/// Runs outside commands; what it decides about them stands here.
pub struct ProcessRunner;

/// The stream that a line of output came from.
#[derive(Debug, Clone, Copy, PartialEq, Eq, Structural)]
pub enum Stream {
    Stdout,
    Stderr,
}

// Masking.

/// The argument is a key whose value is a password, in any case of letters.
pub open spec fn secret_key(key: Seq<char>) -> bool {
    ||| text::eq_ignore_case(key, "--password"@)
    ||| text::eq_ignore_case(key, "--db-pwd"@)
    ||| text::eq_ignore_case(key, "--pwd"@)
}

/// The argument is the platform's key `/P` with a password behind it.
pub open spec fn platform_password(arg: Seq<char>) -> bool {
    (text::starts(arg, "/P"@) || text::starts(arg, "/p"@)) && arg.len() > 2
}

/// An argument as the log shows it; `is_value` tells that the argument before
/// it was a password key.
pub open spec fn mask_arg(arg: Seq<char>, is_value: bool) -> Seq<char> {
    if is_value {
        if arg.len() == 0 {
            arg
        } else {
            "***"@
        }
    } else if platform_password(arg) {
        "/P***"@
    } else {
        match text::split_once(arg, "="@) {
            Some((key, value)) => if secret_key(key) && value.len() > 0 {
                key + "=***"@
            } else {
                arg
            },
            None => arg,
        }
    }
}

/// The argument is a password key whose value is the next argument.
pub open spec fn opens_value(arg: Seq<char>, is_value: bool) -> bool {
    !is_value && !text::has(arg, "="@) && secret_key(arg)
}

/// An argument in quotes where it holds a space.
pub open spec fn quoted(arg: Seq<char>) -> Seq<char> {
    if arg.contains(' ') {
        "\""@ + arg + "\""@
    } else {
        arg
    }
}

/// The arguments as the log shows them; `is_value` is that of the first one.
pub open spec fn masked(args: Seq<Seq<char>>, is_value: bool) -> Seq<Seq<char>>
    decreases args.len(),
{
    if args.len() == 0 {
        Seq::empty()
    } else {
        seq![quoted(mask_arg(args[0], is_value))] + masked(
            args.skip(1),
            opens_value(args[0], is_value),
        )
    }
}

/// The command line as the log shows it.
pub open spec fn masked_command(args: Seq<Seq<char>>) -> Seq<char> {
    text::join(masked(args, false), " "@)
}

/// Whether the argument is a password key.
fn is_secret_key(key: &str) -> (r: bool)
    ensures
        r == secret_key(key@),
{
    text::same_ignore_case(key, "--password") || text::same_ignore_case(key, "--db-pwd")
        || text::same_ignore_case(key, "--pwd")
}

/// One argument as the log shows it.
fn mask_one(arg: &String, is_value: bool) -> (r: String)
    ensures
        r@ == mask_arg(arg@, is_value),
{
    if is_value {
        if arg.as_str().is_empty() {
            return arg.clone();
        }
        return "***".to_owned();
    }
    let v = text::chars_of(arg);
    if (text::starts_with(arg, "/P") || text::starts_with(arg, "/p")) && v.len() > 2 {
        return "/P***".to_owned();
    }
    match text::cut_once(arg, "=") {
        Some((key, value)) => {
            if is_secret_key(&key) && !value.as_str().is_empty() {
                let mut m = key.clone();
                m.append("=***");
                m
            } else {
                arg.clone()
            }
        },
        None => arg.clone(),
    }
}

/// The command line for the log, with every password hidden: the value of
/// `--password=`, `--db-pwd=` and `--pwd=`, the argument after such a key
/// without `=`, and what follows `/P`. An empty value is left as it is.
pub fn mask_command(args: &[String]) -> (r: String)
    ensures
        r@ == masked_command(text::views(args@)),
{
    let mut parts: Vec<String> = Vec::new();
    let mut is_value = false;
    let ghost all = text::views(args@);
    assert(all.skip(0) =~= all);
    assert(text::views(parts@) + masked(all, false) =~= masked(all, false));
    for i in 0..args.len()
        invariant
            all == text::views(args@),
            text::views(parts@) + masked(all.skip(i as int), is_value) == masked(all, false),
    {
        let ghost rest = all.skip(i as int);
        let ghost before = text::views(parts@);
        let m = mask_one(&args[i], is_value);
        let shown = if text::has_char(&text::chars_of(&m), ' ') {
            let mut q = "\"".to_owned();
            q.append(&m);
            q.append("\"");
            q
        } else {
            m
        };
        let ghost one = shown@;
        parts.push(shown);
        let next = !is_value && !text::contains(&args[i], "=") && is_secret_key(&args[i]);
        assert(rest.skip(1) =~= all.skip(i + 1));
        assert(text::views(parts@) =~= before + seq![one]);
        assert(before + (seq![one] + masked(all.skip(i + 1), next)) =~= text::views(parts@)
            + masked(all.skip(i + 1), next));
        is_value = next;
    }
    assert(all.skip(args@.len() as int) =~= Seq::empty());
    assert(text::views(parts@) + masked(Seq::empty(), is_value) =~= text::views(parts@));
    text::joined(&parts, " ")
}

/// The argument at `i` is the value of a password key before it.
pub open spec fn value_at(args: Seq<Seq<char>>, i: int) -> bool
    decreases i,
{
    i > 0 && opens_value(args[i - 1], value_at(args, i - 1))
}

/// Replacing one argument by another that looks the same in the log, and
/// opens a value or not as it does, changes nothing of the log line.
proof fn lemma_replace_arg(args: Seq<Seq<char>>, i: int, new: Seq<char>, first: bool, flag: bool)
    requires
        0 <= i < args.len(),
        flag == (if i == 0 {
            first
        } else {
            opens_value(args[i - 1], flag_before(args, i - 1, first))
        }),
        mask_arg(args[i], flag) == mask_arg(new, flag),
        opens_value(args[i], flag) == opens_value(new, flag),
    ensures
        masked(args.update(i, new), first) == masked(args, first),
    decreases i,
{
    let changed = args.update(i, new);
    if i == 0 {
        assert(changed.skip(1) =~= args.skip(1));
    } else {
        assert(changed.skip(1) =~= args.skip(1).update(i - 1, new));
        let next = opens_value(args[0], first);
        lemma_flag_shift(args, i - 1, first);
        if i >= 2 {
            lemma_flag_shift(args, i - 2, first);
        }
        lemma_replace_arg(args.skip(1), i - 1, new, next, flag);
    }
}

/// `value_at` for a list whose first argument has the flag `first`.
spec fn flag_before(args: Seq<Seq<char>>, i: int, first: bool) -> bool
    decreases i,
{
    if i <= 0 {
        first
    } else {
        opens_value(args[i - 1], flag_before(args, i - 1, first))
    }
}

proof fn lemma_flag_shift(args: Seq<Seq<char>>, i: int, first: bool)
    requires
        0 <= i,
        i + 1 <= args.len(),
    ensures
        flag_before(args.skip(1), i, opens_value(args[0], first)) == flag_before(
            args,
            i + 1,
            first,
        ),
    decreases i,
{
    if i > 0 {
        lemma_flag_shift(args, i - 1, first);
    } else {
        assert(flag_before(args, 0, first) == first);
    }
}

proof fn lemma_value_at(args: Seq<Seq<char>>, i: int)
    requires
        0 <= i <= args.len(),
    ensures
        value_at(args, i) == flag_before(args, i, false),
    decreases i,
{
    if i > 0 {
        lemma_value_at(args, i - 1);
    }
}

/// The log line does not depend on a password given as a separate argument:
/// any two such passwords, neither of them empty, give the same line.
pub proof fn separate_password_is_hidden(args: Seq<Seq<char>>, i: int, other: Seq<char>)
    requires
        0 <= i < args.len(),
        value_at(args, i),
        args[i].len() > 0,
        other.len() > 0,
    ensures
        masked_command(args.update(i, other)) == masked_command(args),
{
    lemma_value_at(args, i);
    lemma_value_at(args, i - 1);
    lemma_replace_arg(args, i, other, false, true);
}

/// The log line does not depend on a password given behind a key and an
/// equals sign: any two such passwords, neither of them empty, give the same
/// line.
pub proof fn keyed_password_is_hidden(
    args: Seq<Seq<char>>,
    i: int,
    key: Seq<char>,
    password: Seq<char>,
    other: Seq<char>,
)
    requires
        0 <= i < args.len(),
        secret_key(key),
        password.len() > 0,
        other.len() > 0,
        args[i] == key + "="@ + password,
    ensures
        masked_command(args.update(i, key + "="@ + other)) == masked_command(args),
{
    let new = key + "="@ + other;
    let flag = value_at(args, i);
    lemma_value_at(args, i);
    if i > 0 {
        lemma_value_at(args, i - 1);
    }
    lemma_secret_key_chars(key);
    reveal_strlit("=");
    text::lemma_split_at_char(key, "="@, password);
    text::lemma_split_at_char(key, "="@, other);
    lemma_not_platform(args[i]);
    lemma_not_platform(new);
    lemma_replace_arg(args, i, new, false, flag);
}

/// What does not begin with a slash is no platform key.
proof fn lemma_not_platform(arg: Seq<char>)
    requires
        arg.len() > 0,
        arg[0] != '/',
    ensures
        !platform_password(arg),
{
    reveal_strlit("/P");
    reveal_strlit("/p");
    if arg.len() >= 2 {
        assert(arg.take(2)[0] == arg[0]);
    }
}

/// The log line does not depend on a password given behind the platform's key
/// `/P`: any two such passwords, neither of them empty, give the same line.
pub proof fn platform_password_is_hidden(
    args: Seq<Seq<char>>,
    i: int,
    password: Seq<char>,
    other: Seq<char>,
)
    requires
        0 <= i < args.len(),
        password.len() > 0,
        other.len() > 0,
        args[i] == "/P"@ + password,
    ensures
        masked_command(args.update(i, "/P"@ + other)) == masked_command(args),
{
    reveal_strlit("/P");
    let new = "/P"@ + other;
    let flag = value_at(args, i);
    lemma_value_at(args, i);
    if i > 0 {
        lemma_value_at(args, i - 1);
    }
    assert(args[i].take(2) =~= "/P"@);
    assert(new.take(2) =~= "/P"@);
    lemma_slash_is_no_key(args[i]);
    lemma_slash_is_no_key(new);
    lemma_replace_arg(args, i, new, false, flag);
}

/// What begins with a slash is no password key.
proof fn lemma_slash_is_no_key(arg: Seq<char>)
    requires
        arg.len() > 0,
        arg[0] == '/',
    ensures
        !secret_key(arg),
{
    reveal_strlit("--password");
    reveal_strlit("--db-pwd");
    reveal_strlit("--pwd");
    assert(lower_first(arg) == '/');
}

spec fn lower_first(s: Seq<char>) -> char {
    text::lower_ascii(s[0])
}

/// A password key holds no equals sign and does not begin with a slash.
proof fn lemma_secret_key_chars(key: Seq<char>)
    requires
        secret_key(key),
    ensures
        !key.contains('='),
        key.len() > 0,
        key[0] != '/',
{
    reveal_strlit("--password");
    reveal_strlit("--db-pwd");
    reveal_strlit("--pwd");
    assert forall|i: int| 0 <= i < key.len() implies key[i] != '=' by {
        assert(text::lower_ascii(key[i]) != '=');
    }
    assert(text::lower_ascii(key[0]) == '-');
}

// Output.

/// The text chosen where the output is no UTF-8: that of the console's code
/// page, unless it holds malformed sequences.
pub open spec fn console_choice(dos: (Seq<char>, bool), windows: Seq<char>) -> Seq<char> {
    if dos.1 {
        windows
    } else {
        dos.0
    }
}

/// The text of console output: UTF-8 where the bytes are UTF-8, else IBM866,
/// else windows-1251.
pub open spec fn console_text(bytes: Seq<u8>) -> Seq<char> {
    match codec::utf8(bytes) {
        Some(s) => s,
        None => console_choice(codec::ibm866(bytes), codec::windows_1251(bytes).0),
    }
}

/// Chooses between the readings of output that is no UTF-8.
pub fn choose_console_text(dos: String, dos_errors: bool, windows: String) -> (r: String)
    ensures
        r@ == console_choice((dos@, dos_errors), windows@),
{
    if dos_errors {
        windows
    } else {
        dos
    }
}

/// The text of console output.
pub fn decode_console_output(bytes: &[u8]) -> (r: String)
    requires
        bytes@.len() <= usize::MAX / 8,
    ensures
        r@ == console_text(bytes@),
{
    match codec::from_utf8(bytes) {
        Some(s) => s,
        None => {
            let (dos, dos_errors) = codec::decode_ibm866(bytes);
            let (windows, _) = codec::decode_windows_1251(bytes);
            choose_console_text(dos, dos_errors, windows)
        },
    }
}

/// A line of output without its line ending; nothing where it is empty.
pub open spec fn shown_line(line: Seq<char>) -> Option<Seq<char>> {
    let t = text::trim_end_of(line, "\r\n"@);
    if t.len() == 0 {
        None
    } else {
        Some(t)
    }
}

/// A line of output without its line ending; nothing where it is empty.
pub fn console_line(line: &str) -> (r: Option<String>)
    ensures
        text::opt_view(r) == shown_line(line@),
{
    let t = text::trimmed_end_of(line, "\r\n");
    if t.as_str().is_empty() {
        None
    } else {
        Some(t)
    }
}

/// A line of output as the log shows it.
pub fn console_log_line(stream: Stream, line: &str) -> (r: String)
    ensures
        r@ == (match stream {
            Stream::Stdout => "  "@,
            Stream::Stderr => "  [stderr] "@,
        }) + line@,
{
    let mut m = match stream {
        Stream::Stdout => "  ".to_owned(),
        Stream::Stderr => "  [stderr] ".to_owned(),
    };
    m.append(line);
    m
}

/// The lines of one stream, each followed by a line feed.
pub open spec fn stream_text(lines: Seq<(Stream, String)>, stream: Stream) -> Seq<char>
    decreases lines.len(),
{
    if lines.len() == 0 {
        Seq::empty()
    } else if lines.last().0 == stream {
        (stream_text(lines.drop_last(), stream) + lines.last().1@).push('\n')
    } else {
        stream_text(lines.drop_last(), stream)
    }
}

impl ProcessRunner {
    /// The outcome of a command from its return code and the lines that it
    /// wrote, in the order in which they came.
    pub fn finish(return_code: i32, lines: &Vec<(Stream, String)>) -> (r: CommandResult)
        ensures
            r.return_code == return_code,
            r.success == (return_code == 0),
            r.stdout@ == stream_text(lines@, Stream::Stdout),
            r.stderr@ == stream_text(lines@, Stream::Stderr),
    {
        let mut stdout = String::new();
        let mut stderr = String::new();
        for i in 0..lines.len()
            invariant
                stdout@ == stream_text(lines@.take(i as int), Stream::Stdout),
                stderr@ == stream_text(lines@.take(i as int), Stream::Stderr),
        {
            assert(lines@.take(i + 1).drop_last() =~= lines@.take(i as int));
            match lines[i].0 {
                Stream::Stdout => {
                    stdout.append(&lines[i].1);
                    stdout.push('\n');
                },
                Stream::Stderr => {
                    stderr.append(&lines[i].1);
                    stderr.push('\n');
                },
            }
        }
        assert(lines@.take(lines@.len() as int) =~= lines@);
        CommandResult { success: return_code == 0, return_code, stdout, stderr }
    }
}

/// An argument that is no password is shown as it is.
pub proof fn other_arguments_are_shown(arg: Seq<char>)
    requires
        arg.len() <= 2 || arg[0] != '/' || (arg[1] != 'P' && arg[1] != 'p'),
        !text::has(arg, "="@),
    ensures
        mask_arg(arg, false) == arg,
{
    reveal_strlit("/P");
    reveal_strlit("/p");
    if arg.len() > 2 {
        assert(arg.take(2)[0] == arg[0] && arg.take(2)[1] == arg[1]);
    }
}

/// A key with a value is shown as it is unless it is one of those that stand
/// before a password.
pub proof fn values_of_other_keys_are_shown(key: Seq<char>, value: Seq<char>)
    requires
        key.len() > 0 && key[0] == '-',
        !key.contains('='),
        text::lowered(key) != "--password"@,
        text::lowered(key) != "--db-pwd"@,
        text::lowered(key) != "--pwd"@,
    ensures
        mask_arg(key + "="@ + value, false) == key + "="@ + value,
{
    lemma_secret_keys(key);
    reveal_strlit("=");
    reveal_strlit("/P");
    reveal_strlit("/p");
    let arg = key + "="@ + value;
    assert(arg[0] == '-');
    assert(arg.take(2)[0] == arg[0]);
    text::lemma_split_at_char(key, "="@, value);
}

#[verifier::rlimit(40)]
proof fn lemma_secret_keys(key: Seq<char>)
    ensures
        secret_key(key) <==> text::lowered(key) == "--password"@ || text::lowered(key)
            == "--db-pwd"@ || text::lowered(key) == "--pwd"@,
{
    reveal_strlit("--password");
    reveal_strlit("--db-pwd");
    reveal_strlit("--pwd");
    text::capital_letters_are_lowered(key, "--password"@);
    text::capital_letters_are_lowered(key, "--db-pwd"@);
    text::capital_letters_are_lowered(key, "--pwd"@);
    assert(text::lowered("--password"@) =~= "--password"@);
    assert(text::lowered("--db-pwd"@) =~= "--db-pwd"@);
    assert(text::lowered("--pwd"@) =~= "--pwd"@);
}

/// A password behind one of its keys is masked, whatever the case of the key, and
/// the key is shown.
#[verifier::rlimit(40)]
pub proof fn passwords_are_masked(key: Seq<char>, value: Seq<char>)
    requires
        text::lowered(key) == "--password"@ || text::lowered(key) == "--db-pwd"@ || text::lowered(
            key,
        ) == "--pwd"@,
        value.len() > 0,
    ensures
        mask_arg(key + "="@ + value, false) == key + "=***"@,
        opens_value(key, false),
        mask_arg(value, true) == "***"@,
        mask_arg("/P"@ + value, false) == "/P***"@,
        mask_arg("/p"@ + value, false) == "/P***"@,
{
    lemma_secret_keys(key);
    reveal_strlit("--password");
    reveal_strlit("--db-pwd");
    reveal_strlit("--pwd");
    reveal_strlit("=");
    reveal_strlit("/P");
    reveal_strlit("/p");
    let low = text::lowered(key);
    assert(low.len() == key.len());
    assert forall|i: int| 0 <= i < key.len() implies #[trigger] key[i] != '=' by {
        assert(low[i] == text::lower_ascii(key[i]));
        assert(low[i] != '=');
    }
    assert(!key.contains('='));
    assert(low[0] == '-');
    assert(low[0] == text::lower_ascii(key[0]));
    let arg = key + "="@ + value;
    assert(arg[0] == key[0]);
    assert(arg.take(2)[0] == arg[0]);
    text::lemma_split_at_char(key, "="@, value);
    text::first_place_is_found(key, "="@);
    if let Some(k) = text::find(key, "="@) {
        assert(key.subrange(k, k + 1)[0] == key[k]);
    }
    let p = "/P"@ + value;
    assert(p.take(2) =~= "/P"@);
    let q = "/p"@ + value;
    assert(q.take(2) =~= "/p"@);
}

/// A command is shown argument by argument, in their order; one with a blank in
/// it stands in quotes.
pub proof fn every_argument_is_shown(args: Seq<Seq<char>>, i: int)
    requires
        0 <= i < args.len(),
    ensures
        masked(args, false).len() == args.len(),
        masked(args, false)[i] == ({
            let shown = mask_arg(args[i], value_at(args, i));
            if shown.contains(' ') {
                "\""@ + shown + "\""@
            } else {
                shown
            }
        }),
        value_at(args, i) == (i > 0 && opens_value(args[i - 1], value_at(args, i - 1))),
{
    lemma_masked_at(args, false, i);
    lemma_value_at(args, i);
}

proof fn lemma_masked_at(args: Seq<Seq<char>>, first: bool, i: int)
    requires
        0 <= i < args.len(),
    ensures
        masked(args, first).len() == args.len(),
        masked(args, first)[i] == quoted(mask_arg(args[i], flag_before(args, i, first))),
    decreases args.len(),
{
    let rest = args.skip(1);
    let next = opens_value(args[0], first);
    if i > 0 {
        lemma_masked_at(rest, next, i - 1);
        assert(rest[i - 1] == args[i]);
        lemma_flag_shift(args, i - 1, first);
    } else if rest.len() > 0 {
        lemma_masked_at(rest, next, 0);
    } else {
        assert(masked(rest, next).len() == 0);
    }
}

/// What a program prints is UTF-8 where it can be, else the code page of the
/// console, and that of the system where that one does not fit.
pub proof fn output_is_decoded_in_order(bytes: Seq<u8>)
    ensures
        codec::utf8(bytes) matches Some(s) ==> console_text(bytes) == s,
        codec::utf8(bytes) is None && !codec::ibm866(bytes).1 ==> console_text(bytes)
            == codec::ibm866(bytes).0,
        codec::utf8(bytes) is None && codec::ibm866(bytes).1 ==> console_text(bytes)
            == codec::windows_1251(bytes).0,
{
}

/// Every line of a stream is kept, in its order and with its end; lines of the
/// other stream are not.
pub proof fn lines_of_a_stream_are_kept(
    lines: Seq<(Stream, String)>,
    more: (Stream, String),
    stream: Stream,
)
    ensures
        stream_text(lines.push(more), stream) == if more.0 == stream {
            stream_text(lines, stream) + more.1@ + seq!['\n']
        } else {
            stream_text(lines, stream)
        },
        stream_text(Seq::empty(), stream).len() == 0,
{
    assert(lines.push(more).drop_last() =~= lines);
    let a = stream_text(lines, stream) + more.1@;
    assert(a.push('\n') =~= a + seq!['\n']);
}

/// A line is shown without its end, and an empty one not at all.
pub proof fn ends_of_lines_are_not_shown(line: Seq<char>)
    requires
        line.len() > 0 ==> line.last() != '\r' && line.last() != '\n',
    ensures
        line.len() > 0 ==> shown_line(line) == Some(line) && shown_line(line + "\r\n"@) == Some(line),
        line.len() == 0 ==> shown_line(line) is None && shown_line(line + "\r\n"@) is None,
{
    reveal_strlit("\r\n");
    let e = "\r\n"@;
    let a = line + e;
    assert(e[0] == '\r' && e[1] == '\n');
    assert(e.contains('\r') && e.contains('\n'));
    let b = a.drop_last();
    assert(a.last() == '\n' && b.last() == '\r');
    assert(b.drop_last() =~= line);
    if line.len() > 0 {
        assert(!e.contains(line.last()));
    }
    assert(text::trim_end_of(line, e) == line);
    assert(text::trim_end_of(b, e) == text::trim_end_of(line, e));
    assert(text::trim_end_of(a, e) == text::trim_end_of(b, e));
}

} // verus!
