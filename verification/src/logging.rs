//! Lines of the log, and the file that they are written to.

use vstd::prelude::*;

use crate::text;

verus! {

/// How much is logged.
#[derive(Debug, Clone, Copy, PartialEq, Eq, Structural)]
pub enum LogLevel {
    Info,
    /// Every step too.
    Debug,
}

/// The level that a setting asks for; whatever is not `debug` is `info`.
pub open spec fn level_of(value: Seq<char>) -> LogLevel {
    if text::eq_ignore_case(text::trim(value), "debug"@) {
        LogLevel::Debug
    } else {
        LogLevel::Info
    }
}

/// How a level is written in a setting.
pub open spec fn level_name(level: LogLevel) -> Seq<char> {
    match level {
        LogLevel::Info => "info"@,
        LogLevel::Debug => "debug"@,
    }
}

impl LogLevel {
    /// The level that a setting asks for.
    pub fn parse(value: &str) -> (r: Self)
        ensures
            r == level_of(value@),
    {
        if text::same_ignore_case(&text::trimmed(value), "debug") {
            LogLevel::Debug
        } else {
            LogLevel::Info
        }
    }

    /// How the level is written in a setting.
    pub fn as_str(self) -> (r: &'static str)
        ensures
            r@ == level_name(self),
    {
        match self {
            LogLevel::Info => "info",
            LogLevel::Debug => "debug",
        }
    }
}

/// The file of a log.
#[derive(Debug)]
pub struct LogFile {
    /// How its name begins.
    pub prefix: String,
    /// The day of its lines.
    pub date: String,
}

/// What is logged, and where.
#[derive(Debug)]
pub struct Logger {
    pub level: LogLevel,
    pub file: Option<LogFile>,
}

/// The name of the file of a day.
pub open spec fn log_file_name(prefix: Seq<char>, date: Seq<char>) -> Seq<char> {
    prefix + "-"@ + date + ".log"@
}

/// A character `n` times.
pub open spec fn repeated(c: char, n: nat) -> Seq<char> {
    Seq::new(n, |i: int| c)
}

/// The length of a separator.
pub const SEPARATOR_LEN: usize = 60;

/// A character `n` times.
fn repeat(c: char, n: usize) -> (r: String)
    ensures
        r@ == repeated(c, n as nat),
{
    let mut s = String::new();
    for i in 0..n
        invariant
            s@ == repeated(c, i as nat),
    {
        s.push(c);
        assert(s@ =~= repeated(c, (i + 1) as nat));
    }
    s
}

impl Logger {
    /// A log without a file.
    pub fn new() -> (r: Self)
        ensures
            r.level == LogLevel::Info,
            r.file is None,
    {
        Logger { level: LogLevel::Info, file: None }
    }

    /// Sets how much is logged.
    pub fn set_level(&mut self, level: LogLevel)
        ensures
            final(self).level == level,
            final(self).file == old(self).file,
    {
        self.level = level;
    }

    /// How much is logged.
    pub fn level(&self) -> (r: LogLevel)
        ensures
            r == self.level,
    {
        self.level
    }

    /// The name of the file of a log that begins with `watch`.
    pub fn init_file_in(&mut self, date: String) -> (r: String)
        ensures
            r@ == log_file_name("watch"@, date@),
            final(self).level == old(self).level,
            final(self).file matches Some(f) && f.prefix@ == "watch"@ && f.date == date,
    {
        self.init_file_named("watch", date)
    }

    /// Begins a file; gives its name.
    pub fn init_file_named(&mut self, prefix: &str, date: String) -> (r: String)
        ensures
            r@ == log_file_name(prefix@, date@),
            final(self).level == old(self).level,
            final(self).file matches Some(f) && f.prefix@ == prefix@ && f.date == date,
    {
        let name = file_name(prefix, &date);
        self.file = Some(LogFile { prefix: prefix.to_owned(), date });
        name
    }

    /// The name of the file that has to be begun on a day, unless it is that of
    /// the file that is written to.
    pub fn next_file(&self, today: &str) -> (r: Option<String>)
        ensures
            text::opt_view(r) == match self.file {
                Some(f) => if f.date@ != today@ {
                    Some(log_file_name(f.prefix@, today@))
                } else {
                    None
                },
                None => None,
            },
    {
        match &self.file {
            Some(f) => if !text::same(&f.date, today) {
                Some(file_name(&f.prefix, today))
            } else {
                None
            },
            None => None,
        }
    }

    /// Remembers that the file of a day was begun.
    pub fn file_begun(&mut self, today: String)
        ensures
            final(self).level == old(self).level,
            match (old(self).file, final(self).file) {
                (Some(f), Some(g)) => g.prefix == f.prefix && g.date == today,
                (None, g) => g is None,
                _ => false,
            },
    {
        match self.file.take() {
            Some(f) => {
                self.file = Some(LogFile { prefix: f.prefix, date: today });
            },
            None => {},
        }
    }

    /// A line of the log, with the time of the day.
    pub fn log(timestamp: &str, message: &str) -> (r: String)
        ensures
            r@ == "["@ + timestamp@ + "] "@ + message@,
    {
        let mut s = "[".to_owned();
        s.append(timestamp);
        s.append("] ");
        s.append(message);
        s
    }

    /// The message of a step, where steps are logged.
    pub fn debug(&self, message: &str) -> (r: Option<String>)
        ensures
            text::opt_view(r) == if self.level == LogLevel::Debug {
                Some("[debug] "@ + message@)
            } else {
                None
            },
    {
        if self.level != LogLevel::Debug {
            return None;
        }
        let mut s = "[debug] ".to_owned();
        s.append(message);
        Some(s)
    }

    /// A line that separates.
    pub fn separator() -> (r: String)
        ensures
            r@ == repeated('=', SEPARATOR_LEN as nat),
    {
        repeat('=', SEPARATOR_LEN)
    }

    /// A thin line that separates.
    pub fn thin_separator() -> (r: String)
        ensures
            r@ == repeated('-', SEPARATOR_LEN as nat),
    {
        repeat('-', SEPARATOR_LEN)
    }
}

/// The name of the file of a day.
fn file_name(prefix: &str, date: &str) -> (r: String)
    ensures
        r@ == log_file_name(prefix@, date@),
{
    let mut s = prefix.to_owned();
    s.append("-");
    s.append(date);
    s.append(".log");
    s
}

/// A level that is written in a setting is read as that level again.
pub proof fn written_level_is_read(level: LogLevel)
    ensures
        level_of(level_name(level)) == level,
{
    reveal_strlit("info");
    reveal_strlit("debug");
    text::lemma_trim_id("info"@);
    text::lemma_trim_id("debug"@);
}

/// Only the word `debug`, in any case, with or without white space around it,
/// asks for every line.
pub proof fn only_debug_asks_for_every_line(value: Seq<char>)
    ensures
        level_of(value) == LogLevel::Debug <==> text::lowered(text::trim(value)) == "debug"@,
{
    reveal_strlit("debug");
    text::capital_letters_are_lowered(text::trim(value), "debug"@);
    assert(text::lowered("debug"@) =~= "debug"@);
}

/// A day has a file of its own.
pub proof fn days_have_their_own_files(prefix: Seq<char>, date: Seq<char>, other: Seq<char>)
    ensures
        log_file_name(prefix, date) == prefix + "-"@ + date + ".log"@,
        date != other ==> log_file_name(prefix, date) != log_file_name(prefix, other),
{
    let a = log_file_name(prefix, date);
    let b = log_file_name(prefix, other);
    let n = (prefix + "-"@).len() as int;
    let e = ".log"@.len() as int;
    assert(a.subrange(n, a.len() - e) =~= date);
    assert(b.subrange(n, b.len() - e) =~= other);
}

/// A line of one sign has as many of them as asked for.
pub proof fn line_of_signs_is_as_long_as_asked(c: char, n: nat, i: int)
    ensures
        repeated(c, n).len() == n,
        0 <= i < n ==> repeated(c, n)[i] == c,
{
}

} // verus!
