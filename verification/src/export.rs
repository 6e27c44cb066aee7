//! An export as a whole: what is exported and how, what follows from each
//! outcome, and what is remembered for the next one.

use vstd::prelude::*;

use crate::command_builder::{IbcmdDbAuth, IbcmdParams};
use crate::config::AppConfig;
use crate::error::{ErrorView, ExportError};
use crate::extension_run::{self, ExtAction, ExtensionRun};
use crate::json;
use crate::paths;
use crate::processings::{Manifest, ProcessingsParams, ProcessingsResult, StorageMapping};
use crate::runner::CommandResult;
use crate::state_db::{Discovery, ExportLogEntry, ProcItem};
use crate::storage_mapping::MappingView;
use crate::sorting;
use crate::strmap::{string_values, StrMap};
use crate::text;

verus! {

/// Where the SQL names of the catalogue of processors come from.
#[derive(Debug, Clone, Copy, PartialEq, Eq, Structural)]
pub enum DiscoveryMode {
    /// From the service tables of the database and, where that fails, from the
    /// service inside the base.
    Auto,
    /// From the service tables of the database only.
    Sql,
    /// From the service inside the base only.
    Mcp,
}

impl Default for DiscoveryMode {
    fn default() -> (r: Self)
        ensures
            r == DiscoveryMode::Auto,
    {
        DiscoveryMode::Auto
    }
}

/// The parameters of an export of processors.
#[derive(Debug, Clone)]
pub struct ProcessingsCliParams {
    pub sql_server: String,
    /// SQL names given by hand.
    pub override_mapping: Option<StorageMapping>,
    /// Whether the SQL names are found anew.
    pub rediscover: bool,
    pub incremental: bool,
    pub discovery: DiscoveryMode,
}

/// The parameters of a whole export.
#[derive(Debug, Clone)]
pub struct ExportOptions {
    pub export_base: bool,
    pub export_extensions: bool,
    pub export_processings: bool,
    /// Whether binary copies are kept.
    pub save_artifacts: bool,
    /// Whether the main configuration has changed, where that is known.
    pub config_changed: Option<bool>,
    pub ibcmd_params: IbcmdParams,
    pub processings_params: Option<ProcessingsCliParams>,
}

/// What a whole export did.
#[derive(Debug)]
pub struct ExportResults {
    pub base: Option<bool>,
    pub extensions: Option<StrMap<bool>>,
    pub processings: Option<ProcessingsResult>,
}

/// The mark of a list of extensions that could not be had.
pub const LIST_FAILED: &'static str = "<list-failed>";

// Results.

/// Some extension failed.
pub open spec fn any_failed(m: Map<Seq<char>, bool>) -> bool {
    exists|k: Seq<char>| #[trigger] m.dom().contains(k) && !m[k]
}

/// Nothing of the catalogue of processors succeeded, and something failed.
pub open spec fn processings_failed(p: ProcessingsResult) -> bool {
    p.failed@.len() > 0 && p.new == 0 && p.changed == 0 && p.unchanged == 0
}

/// The export succeeded: the main configuration did not fail, no extension
/// did, and the processors did not fail altogether.
pub open spec fn succeeded(r: ExportResults) -> bool {
    &&& r.base != Some(false)
    &&& r.extensions matches Some(m) ==> !any_failed(m@)
    &&& r.processings matches Some(p) ==> !processings_failed(p)
}

/// How many of the given keys have the value true.
pub open spec fn ok_count(keys: Seq<Seq<char>>, m: Map<Seq<char>, bool>) -> nat
    decreases keys.len(),
{
    if keys.len() == 0 {
        0
    } else {
        ok_count(keys.drop_last(), m) + if m[keys.last()] {
            1nat
        } else {
            0
        }
    }
}

/// The part of a summary about the main configuration.
pub open spec fn base_summary(ok: bool) -> Seq<char> {
    "база: "@ + if ok {
        "✓"@
    } else {
        "✗"@
    }
}

/// The part of a summary about the extensions.
pub open spec fn extensions_summary(m: StrMap<bool>) -> Seq<char> {
    if m@.dom().contains(LIST_FAILED@) {
        "расширения: список не получен"@
    } else {
        "расширения: "@ + text::dec(ok_count(m.keys(), m@)) + "/"@ + text::dec(m.keys().len())
    }
}

/// The part of a summary about the processors.
pub open spec fn processings_summary(p: ProcessingsResult) -> Seq<char> {
    "допобработки: new="@ + text::dec(p.new as nat) + " changed="@ + text::dec(p.changed as nat)
        + " unchanged="@ + text::dec(p.unchanged as nat) + " deleted="@ + text::dec(
        p.deleted as nat,
    ) + " failed="@ + text::dec(p.failed@.len())
}

/// The parts of a summary.
pub open spec fn summary_parts(r: ExportResults) -> Seq<Seq<char>> {
    let base = match r.base {
        Some(ok) => seq![base_summary(ok)],
        None => Seq::empty(),
    };
    let extensions = match r.extensions {
        Some(m) => seq![extensions_summary(m)],
        None => Seq::empty(),
    };
    let processings = match r.processings {
        Some(p) => seq![processings_summary(p)],
        None => Seq::empty(),
    };
    base + extensions + processings
}

/// How many entries have the value true.
fn count_ok(m: &StrMap<bool>) -> (r: usize)
    ensures
        r == ok_count(m.keys(), m@),
        r <= m.keys().len(),
{
    let n: usize = m.len();
    let mut ok: usize = 0;
    for i in 0..n
        invariant
            n == m.keys().len(),
            ok == ok_count(m.keys().take(i as int), m@),
            ok <= i,
    {
        assert(m.keys().take(i + 1).drop_last() =~= m.keys().take(i as int));
        if *m.value_at(i) {
            ok = ok + 1;
        }
    }
    assert(m.keys().take(n as int) =~= m.keys());
    ok
}

/// Whether some entry has the value false.
fn has_failed(m: &StrMap<bool>) -> (r: bool)
    ensures
        r == any_failed(m@),
{
    let n: usize = m.len();
    for i in 0..n
        invariant
            n == m.keys().len(),
            forall|j: int| 0 <= j < i ==> m@[#[trigger] m.keys()[j]],
            forall|k: Seq<char>| #[trigger] m@.dom().contains(k) == m.keys().contains(k),
    {
        if !*m.value_at(i) {
            assert(m@.dom().contains(m.keys()[i as int]));
            return true;
        }
    }
    assert forall|k: Seq<char>| #[trigger] m@.dom().contains(k) implies m@[k] by {
        assert(m.keys().contains(k));
        let j = m.keys().index_of(k);
        assert(m.keys()[j] == k);
    }
    false
}

impl ExportResults {
    /// Whether the export succeeded as a whole.
    pub fn overall_success(&self) -> (r: bool)
        ensures
            r == succeeded(*self),
    {
        if let Some(ok) = self.base {
            if !ok {
                return false;
            }
        }
        if let Some(ext) = &self.extensions {
            if has_failed(ext) {
                return false;
            }
        }
        if let Some(pr) = &self.processings {
            if pr.failed.len() > 0 && pr.new == 0 && pr.changed == 0 && pr.unchanged == 0 {
                return false;
            }
        }
        true
    }

    /// A short summary for the log of exports.
    pub fn summary(&self) -> (r: String)
        ensures
            r@ == text::join(summary_parts(*self), "; "@),
    {
        let mut parts: Vec<String> = Vec::new();
        if let Some(ok) = self.base {
            let mut s = "база: ".to_owned();
            if ok {
                s.append("✓");
            } else {
                s.append("✗");
            }
            parts.push(s);
        }
        if let Some(ext) = &self.extensions {
            if ext.contains_key(LIST_FAILED) {
                parts.push("расширения: список не получен".to_owned());
            } else {
                let mut s = "расширения: ".to_owned();
                let ok = text::dec_of(count_ok(ext) as u64);
                s.append(&ok);
                s.append("/");
                let all = text::dec_of(ext.len() as u64);
                s.append(&all);
                parts.push(s);
            }
        }
        if let Some(pr) = &self.processings {
            let mut s = "допобработки: new=".to_owned();
            let a = text::dec_of(pr.new as u64);
            s.append(&a);
            s.append(" changed=");
            let b = text::dec_of(pr.changed as u64);
            s.append(&b);
            s.append(" unchanged=");
            let c = text::dec_of(pr.unchanged as u64);
            s.append(&c);
            s.append(" deleted=");
            let d = text::dec_of(pr.deleted as u64);
            s.append(&d);
            s.append(" failed=");
            let e = text::dec_of(pr.failed.len() as u64);
            s.append(&e);
            parts.push(s);
        }
        assert(text::views(parts@) =~= summary_parts(*self));
        text::joined(&parts, "; ")
    }
}

/// The entry of the log about an export that finished at the given time.
pub fn record_export_log(
    repo: &str,
    results: &ExportResults,
    finished_at: String,
    duration_sec: u64,
) -> (r: ExportLogEntry)
    ensures
        r.repo@ == repo@,
        r.finished_at == finished_at,
        r.duration_sec == Some(duration_sec),
        r.status@ == if succeeded(*results) {
            "ok"@
        } else {
            "fail"@
        },
        r.events is None,
        r.details matches Some(d) && d@ == text::join(summary_parts(*results), "; "@),
        r.error is None,
{
    let status = if results.overall_success() {
        "ok".to_owned()
    } else {
        "fail".to_owned()
    };
    ExportLogEntry {
        repo: repo.to_owned(),
        finished_at,
        duration_sec: Some(duration_sec),
        status,
        events: None,
        details: Some(results.summary()),
        error: None,
    }
}

// Binary copies.

/// A new binary copy of the main configuration is needed.
pub open spec fn needs_copy(
    save_artifacts: bool,
    config_changed: Option<bool>,
    full_rewrite: bool,
    copy_exists: bool,
) -> bool {
    save_artifacts && (full_rewrite || config_changed != Some(false) || !copy_exists)
}

/// Whether a new binary copy of the main configuration is needed: always after
/// a full export, and otherwise unless the configuration is known to be
/// unchanged and there is a copy.
pub fn need_base_artifact(
    save_artifacts: bool,
    config_changed: Option<bool>,
    full_rewrite: bool,
    cf_exists: bool,
) -> (r: bool)
    ensures
        r == needs_copy(save_artifacts, config_changed, full_rewrite, cf_exists),
{
    if !save_artifacts {
        return false;
    }
    if full_rewrite {
        return true;
    }
    match config_changed {
        None => true,
        Some(changed) => changed || !cf_exists,
    }
}

// The main configuration.

/// Whether an export of the main configuration writes only what has changed:
/// as asked for, but never where there is nothing to compare with, and also
/// where nothing was asked for and there is.
pub open spec fn effective_sync(sync: bool, force: bool, dump_exists: bool) -> bool {
    dump_exists && (sync || !force)
}

/// What an export of the main configuration asks for next.
#[derive(Debug)]
pub enum BaseAction {
    /// Make the directory, after emptying it where `clean` is set.
    Prepare { clean: bool },
    /// Run `ibcmd` in the given mode.
    Run { sync: bool, force: bool },
    /// The export is over; `full_rewrite` tells that everything was written.
    Finish { success: bool, full_rewrite: bool },
}

/// Where an export of the main configuration stands.
#[derive(Debug, Clone, Copy, PartialEq, Eq, Structural)]
pub enum BaseStage {
    Prepare,
    Run,
    RetryPrepare,
    RetryRun,
    Finished,
}

/// What came of an action.
#[derive(Debug)]
pub enum BaseReply {
    /// Whether the directory could be prepared.
    Prepared(bool),
    /// The outcome of `ibcmd`; none where it could not be started.
    Ran(Option<CommandResult>),
}

/// An export of the main configuration.
#[derive(Debug)]
pub struct BaseExport {
    pub sync: bool,
    pub force: bool,
    pub stage: BaseStage,
}

/// `ibcmd` asks for a full export: what was exported before cannot be
/// continued.
pub open spec fn asks_for_full(r: CommandResult) -> bool {
    text::has(r.stdout@ + "\n"@ + r.stderr@, "экспортировать конфигурацию полностью"@)
}

/// The reply is one that the stage waits for.
pub open spec fn base_awaited(stage: BaseStage, reply: BaseReply) -> bool {
    match stage {
        BaseStage::Prepare | BaseStage::RetryPrepare => reply is Prepared,
        BaseStage::Run | BaseStage::RetryRun => reply is Ran,
        BaseStage::Finished => false,
    }
}

/// What an export of the main configuration does at a stage with a reply. An
/// incremental one that `ibcmd` refuses is repeated once, in full.
pub open spec fn base_next(stage: BaseStage, sync: bool, force: bool, reply: BaseReply) -> (
    BaseStage,
    BaseAction,
) {
    let failure = (
        BaseStage::Finished,
        BaseAction::Finish { success: false, full_rewrite: false },
    );
    match (stage, reply) {
        (BaseStage::Prepare, BaseReply::Prepared(ok)) => if ok {
            (BaseStage::Run, BaseAction::Run { sync, force })
        } else {
            failure
        },
        (BaseStage::Run, BaseReply::Ran(Some(r))) => if r.success {
            (
                BaseStage::Finished,
                BaseAction::Finish { success: true, full_rewrite: !sync },
            )
        } else if sync && asks_for_full(r) {
            (BaseStage::RetryPrepare, BaseAction::Prepare { clean: true })
        } else {
            failure
        },
        (BaseStage::RetryPrepare, BaseReply::Prepared(ok)) => if ok {
            (BaseStage::RetryRun, BaseAction::Run { sync: false, force: true })
        } else {
            failure
        },
        (BaseStage::RetryRun, BaseReply::Ran(Some(r))) => if r.success {
            (BaseStage::Finished, BaseAction::Finish { success: true, full_rewrite: true })
        } else {
            failure
        },
        _ => failure,
    }
}

impl BaseExport {
    /// Begins an export of the main configuration. `dump_exists` tells whether
    /// there is an export to continue, `dir_exists` whether there is a
    /// directory.
    pub fn start(params: &IbcmdParams, dump_exists: bool, dir_exists: bool) -> (r: (
        BaseExport,
        BaseAction,
    ))
        ensures
            r.0.sync == effective_sync(params.sync, params.force, dump_exists),
            r.0.force == params.force,
            r.0.stage is Prepare,
            r.1 == (BaseAction::Prepare {
                clean: (r.0.force || !r.0.sync) && dir_exists,
            }),
    {
        let mut sync = params.sync;
        if sync && !dump_exists {
            sync = false;
        }
        if !sync && !params.force && dump_exists {
            sync = true;
        }
        let export = BaseExport { sync, force: params.force, stage: BaseStage::Prepare };
        let clean = (params.force || !sync) && dir_exists;
        (export, BaseAction::Prepare { clean })
    }

    /// Takes what came of the last action and says what to do next.
    pub fn step(&mut self, reply: &BaseReply) -> (r: BaseAction)
        requires
            base_awaited(old(self).stage, *reply),
        ensures
            final(self).sync == old(self).sync,
            final(self).force == old(self).force,
            (final(self).stage, r) == base_next(
                old(self).stage,
                old(self).sync,
                old(self).force,
                *reply,
            ),
    {
        let stage = self.stage;
        self.stage = BaseStage::Finished;
        match reply {
            BaseReply::Prepared(ok) => {
                if *ok {
                    if stage == BaseStage::Prepare {
                        self.stage = BaseStage::Run;
                        return BaseAction::Run { sync: self.sync, force: self.force };
                    }
                    self.stage = BaseStage::RetryRun;
                    return BaseAction::Run { sync: false, force: true };
                }
                BaseAction::Finish { success: false, full_rewrite: false }
            },
            BaseReply::Ran(result) => {
                if let Some(r) = result {
                    if r.success {
                        let full_rewrite = stage == BaseStage::RetryRun || !self.sync;
                        return BaseAction::Finish { success: true, full_rewrite };
                    }
                    if stage == BaseStage::Run && self.sync {
                        let mut body = r.stdout.clone();
                        body.append("\n");
                        body.append(&r.stderr);
                        if text::contains(&body, "экспортировать конфигурацию полностью") {
                            self.stage = BaseStage::RetryPrepare;
                            return BaseAction::Prepare { clean: true };
                        }
                    }
                }
                BaseAction::Finish { success: false, full_rewrite: false }
            },
        }
    }
}

/// The parameters of `ibcmd` in the given mode.
pub fn with_mode(params: &IbcmdParams, sync: bool, force: bool) -> (r: IbcmdParams)
    ensures
        r.sync == sync,
        r.force == force,
        r.ibcmd_path@ == params.ibcmd_path@,
        r.dbms@ == params.dbms@,
        r.db_auth == params.db_auth,
        text::opt_view(r.db_user) == text::opt_view(params.db_user),
        text::opt_view(r.db_pwd) == text::opt_view(params.db_pwd),
        r.use_connection_string == params.use_connection_string,
        r.jobs == params.jobs,
        r.incremental_extensions == params.incremental_extensions,
{
    IbcmdParams {
        ibcmd_path: params.ibcmd_path.clone(),
        dbms: params.dbms.clone(),
        db_auth: params.db_auth,
        db_user: text::clone_opt(&params.db_user),
        db_pwd: text::clone_opt(&params.db_pwd),
        use_connection_string: params.use_connection_string,
        jobs: params.jobs,
        sync,
        force,
        incremental_extensions: params.incremental_extensions,
    }
}

/// Where an export of the main configuration stands after the first `n`
/// replies.
pub open spec fn base_after(sync: bool, force: bool, replies: Seq<BaseReply>, n: int) -> (
    BaseStage,
    Option<BaseAction>,
)
    decreases n,
{
    if n <= 0 {
        (BaseStage::Prepare, None)
    } else {
        let (stage, action) = base_next(
            base_after(sync, force, replies, n - 1).0,
            sync,
            force,
            replies[n - 1],
        );
        (stage, Some(action))
    }
}

/// An export of the main configuration ends: `ibcmd` is run twice at most, and
/// after the fourth reply all is over.
pub proof fn base_export_ends(sync: bool, force: bool, replies: Seq<BaseReply>, n: int)
    requires
        4 <= n <= replies.len(),
    ensures
        base_after(sync, force, replies, n).0 is Finished,
    decreases n,
{
    if n > 4 {
        base_export_ends(sync, force, replies, n - 1);
    } else {
        assert(base_after(sync, force, replies, 0).0 is Prepare);
        assert(base_after(sync, force, replies, 1).0 is Run || base_after(
            sync,
            force,
            replies,
            1,
        ).0 is Finished);
        assert(base_after(sync, force, replies, 2).0 is RetryPrepare || base_after(
            sync,
            force,
            replies,
            2,
        ).0 is Finished);
        assert(base_after(sync, force, replies, 3).0 is RetryRun || base_after(
            sync,
            force,
            replies,
            3,
        ).0 is Finished);
    }
}

/// Where binary copies are kept, a full export always renews the copy; where
/// they are not, nothing does.
pub proof fn copies_follow_full_exports(
    config_changed: Option<bool>,
    full_rewrite: bool,
    copy_exists: bool,
)
    ensures
        needs_copy(true, config_changed, true, copy_exists),
        !needs_copy(false, config_changed, full_rewrite, copy_exists),
        needs_copy(true, config_changed, full_rewrite, false),
{
}

// The list of extensions.

/// A line of the list of extensions.
#[derive(Debug, Clone)]
pub enum ListLine {
    /// A blank line, which ends the block of an extension.
    Blank,
    /// A key, in lower case, and its value.
    Field { key: String, value: String },
    /// A line that says nothing.
    Other,
}

/// A line of the list of extensions.
pub enum LineView {
    Blank,
    Field { key: Seq<char>, value: Seq<char> },
    Other,
}

impl View for ListLine {
    type V = LineView;

    open spec fn view(&self) -> LineView {
        match *self {
            ListLine::Blank => LineView::Blank,
            ListLine::Field { key, value } => LineView::Field { key: key@, value: value@ },
            ListLine::Other => LineView::Other,
        }
    }
}

/// The views of lines.
pub open spec fn line_views(v: Seq<ListLine>) -> Seq<LineView> {
    v.map_values(|l: ListLine| l@)
}

/// A text without the quotes at its beginning.
pub open spec fn skip_quotes(s: Seq<char>) -> Seq<char>
    decreases s.len(),
{
    if s.len() > 0 && s[0] == '"' {
        skip_quotes(s.skip(1))
    } else {
        s
    }
}

/// A value without white space and quotes around it.
pub open spec fn bare_value(s: Seq<char>) -> Seq<char> {
    text::trim(text::trim_end_of(skip_quotes(text::trim(s)), "\""@))
}

/// What a line says, where `lower` is its key in lower case.
pub open spec fn line_of(line: Seq<char>, lower: Seq<char>) -> LineView {
    let t = text::trim(line);
    if t.len() == 0 {
        LineView::Blank
    } else {
        match text::split_once(t, ":"@) {
            None => LineView::Other,
            Some((_, value)) => LineView::Field { key: lower, value: bare_value(value) },
        }
    }
}

/// The key of a line, as it is written.
pub open spec fn raw_key(line: Seq<char>) -> Seq<char> {
    match text::split_once(text::trim(line), ":"@) {
        Some((key, _)) => text::trim(key),
        None => Seq::empty(),
    }
}

/// The key names an extension.
pub open spec fn is_name_key(key: Seq<char>) -> bool {
    key == "name"@ || key == "имя"@
}

/// The key gives the hash of an extension.
pub open spec fn is_hash_key(key: Seq<char>) -> bool {
    key == "hash-sum"@ || key == "hash"@ || key == "контрольная-сумма"@
}

/// The extension of a finished block: there is one where it was named.
pub open spec fn block_end(name: Option<Seq<char>>, hash: Seq<char>) -> Seq<
    (Seq<char>, Seq<char>),
> {
    match name {
        Some(n) => seq![(n, hash)],
        None => Seq::empty(),
    }
}

/// The extensions that lines list, with their hashes; `name` and `hash` are
/// what the block before the lines says. A block ends with a blank line, with
/// the next name or with the list; the last hash in it counts.
pub open spec fn listed(
    lines: Seq<LineView>,
    name: Option<Seq<char>>,
    hash: Seq<char>,
) -> Seq<(Seq<char>, Seq<char>)>
    decreases lines.len(),
{
    if lines.len() == 0 {
        block_end(name, hash)
    } else {
        let rest = lines.skip(1);
        match lines[0] {
            LineView::Blank => block_end(name, hash) + listed(rest, None, Seq::empty()),
            LineView::Other => listed(rest, name, hash),
            LineView::Field { key, value } => if is_name_key(key) {
                block_end(name, hash) + listed(
                    rest,
                    if value.len() > 0 {
                        Some(value)
                    } else {
                        None
                    },
                    Seq::empty(),
                )
            } else if is_hash_key(key) && value.len() > 0 {
                listed(rest, name, value)
            } else {
                listed(rest, name, hash)
            },
        }
    }
}

/// Names and hashes, by their views.
pub open spec fn pair_views(v: Seq<(String, String)>) -> Seq<(Seq<char>, Seq<char>)> {
    v.map_values(|p: (String, String)| (p.0@, p.1@))
}

/// A value without white space and quotes around it.
fn bare(s: &str) -> (r: String)
    ensures
        r@ == bare_value(s@),
{
    let t = text::trimmed(s);
    let v = text::chars_of(&t);
    let n: usize = v.len();
    let mut i: usize = 0;
    assert(v@.skip(0) =~= t@);
    while i < n && v[i] == '"'
        invariant
            v@ == t@,
            n == v@.len(),
            i <= n,
            skip_quotes(t@.skip(i as int)) == skip_quotes(t@),
        decreases n - i,
    {
        assert(t@.skip(i as int).skip(1) =~= t@.skip(i + 1));
        i = i + 1;
    }
    let tail = &v[i..n];
    assert(tail@ =~= t@.skip(i as int));
    let head = text::string_of(tail);
    let cut = text::trimmed_end_of(&head, "\"");
    text::trimmed(&cut)
}

/// What a line of the list says.
fn read_line(line: &str) -> (r: ListLine)
    ensures
        r@ == line_of(line@, text::lower(raw_key(line@))),
{
    let t = text::trimmed(line);
    if t.as_str().is_empty() {
        return ListLine::Blank;
    }
    match text::cut_once(&t, ":") {
        None => ListLine::Other,
        Some((key, value)) => ListLine::Field {
            key: text::to_lowercase(&text::trimmed(&key)),
            value: bare(&value),
        },
    }
}

/// Appends the extension of a finished block.
fn end_block(out: &mut Vec<(String, String)>, name: Option<String>, hash: String)
    ensures
        pair_views(final(out)@) == pair_views(old(out)@) + block_end(text::opt_view(name), hash@),
{
    let ghost before = out@;
    match name {
        Some(n) => {
            out.push((n, hash));
            assert(pair_views(out@) =~= pair_views(before) + seq![(n@, hash@)]);
        },
        None => {
            assert(pair_views(before) + Seq::<(Seq<char>, Seq<char>)>::empty() =~= pair_views(
                before,
            ));
        },
    }
}

/// The extensions that lines list, with their hashes.
pub fn parse_list_lines(lines: &Vec<ListLine>) -> (r: Vec<(String, String)>)
    ensures
        pair_views(r@) == listed(line_views(lines@), None, Seq::empty()),
{
    let ghost all = line_views(lines@);
    let ghost whole = listed(all, None, Seq::empty());
    let mut out: Vec<(String, String)> = Vec::new();
    let mut name: Option<String> = None;
    let mut hash = String::new();
    let n: usize = lines.len();
    assert(all.skip(0) =~= all);
    assert(pair_views(out@) + whole =~= whole);
    for i in 0..n
        invariant
            n == lines@.len(),
            all == line_views(lines@),
            whole == listed(all, None, Seq::empty()),
            pair_views(out@) + listed(all.skip(i as int), text::opt_view(name), hash@) == whole,
    {
        let ghost rest = all.skip(i as int).skip(1);
        assert(rest =~= all.skip(i + 1));
        let ghost before = pair_views(out@);
        match &lines[i] {
            ListLine::Blank => {
                let ghost ended = block_end(text::opt_view(name), hash@);
                end_block(&mut out, name, hash);
                name = None;
                hash = String::new();
                assert(before + (ended + listed(rest, None, Seq::empty())) =~= pair_views(out@)
                    + listed(rest, None, Seq::empty()));
            },
            ListLine::Other => {},
            ListLine::Field { key, value } => {
                if text::same(key, "name") || text::same(key, "имя") {
                    let ghost ended = block_end(text::opt_view(name), hash@);
                    end_block(&mut out, name, hash);
                    name = if value.as_str().is_empty() {
                        None
                    } else {
                        Some(value.clone())
                    };
                    hash = String::new();
                    let ghost tail = listed(rest, text::opt_view(name), Seq::empty());
                    assert(before + (ended + tail) =~= pair_views(out@) + tail);
                } else if (text::same(key, "hash-sum") || text::same(key, "hash") || text::same(
                    key,
                    "контрольная-сумма",
                )) && !value.as_str().is_empty() {
                    hash = value.clone();
                }
            },
        }
    }
    assert(all.skip(n as int) =~= Seq::empty());
    end_block(&mut out, name, hash);
    out
}

/// The lines of the list of extensions, as they are read.
pub open spec fn list_lines(text: Seq<char>) -> Seq<LineView> {
    text::lines(text).map_values(
        |l: Seq<char>| line_of(l, text::lower(raw_key(l))),
    )
}

/// The extensions in the output of `ibcmd infobase config extension list`,
/// with their hashes.
pub fn parse_extension_list(stdout: &str) -> (r: Vec<(String, String)>)
    ensures
        pair_views(r@) == listed(list_lines(stdout@), None, Seq::empty()),
{
    let lines = text::lines_of(stdout);
    let ghost all = list_lines(stdout@);
    let mut read: Vec<ListLine> = Vec::new();
    for i in 0..lines.len()
        invariant
            all == list_lines(stdout@),
            text::views(lines@) == text::lines(stdout@),
            line_views(read@) == all.take(i as int),
    {
        assert(text::views(lines@)[i as int] == lines@[i as int]@);
        let ghost before = read@;
        let line = read_line(&lines[i]);
        read.push(line);
        assert(line_views(read@) =~= line_views(before).push(line@));
        assert(all.take(i + 1) =~= all.take(i as int).push(all[i as int]));
    }
    assert(text::views(lines@).len() == lines@.len());
    assert(all.take(lines@.len() as int) =~= all);
    parse_list_lines(&read)
}

/// The extensions named in the configuration, which come without hashes.
pub fn configured_extensions(config: &AppConfig) -> (r: Option<Vec<(String, String)>>)
    ensures
        match r {
            Some(v) => config.extensions@.len() > 0 && v@.len() == config.extensions@.len()
                && forall|i: int|
                0 <= i < v@.len() ==> (#[trigger] v@[i]).0@ == config.extensions@[i]@
                    && v@[i].1@.len() == 0,
            None => config.extensions@.len() == 0,
        },
{
    if config.extensions.len() == 0 {
        return None;
    }
    let mut out: Vec<(String, String)> = Vec::new();
    for i in 0..config.extensions.len()
        invariant
            out@.len() == i,
            forall|j: int|
                0 <= j < i ==> (#[trigger] out@[j]).0@ == config.extensions@[j]@
                    && out@[j].1@.len() == 0,
    {
        out.push((config.extensions[i].clone(), String::new()));
    }
    Some(out)
}

/// The extensions of a base: those named in the configuration or, where there
/// are none, those that `ibcmd` lists. They cannot be had where `ibcmd` could
/// not be started or failed.
pub open spec fn extensions_of(config: AppConfig, ran: Option<CommandResult>) -> Option<
    Seq<(Seq<char>, Seq<char>)>,
> {
    if config.extensions@.len() > 0 {
        Some(config.extensions@.map_values(|s: String| (s@, Seq::<char>::empty())))
    } else {
        match ran {
            Some(result) => if result.success {
                Some(listed(list_lines(result.stdout@), None, Seq::empty()))
            } else {
                None
            },
            None => None,
        }
    }
}

/// The extensions of a base, by the outcome of `ibcmd`, which is not asked
/// where the configuration names them.
pub fn list_extensions(config: &AppConfig, ran: &Option<CommandResult>) -> (r: Option<
    Vec<(String, String)>,
>)
    ensures
        match (r, extensions_of(*config, *ran)) {
            (Some(v), Some(all)) => pair_views(v@) == all,
            (None, None) => true,
            _ => false,
        },
{
    match configured_extensions(config) {
        Some(v) => {
            proof {
                let all = extensions_of(*config, *ran)->0;
                assert forall|i: int| 0 <= i < v@.len() implies pair_views(v@)[i] == all[i] by {
                    assert(v@[i].0@ == config.extensions@[i]@);
                    assert(v@[i].1@ =~= Seq::<char>::empty());
                }
                assert(pair_views(v@) =~= all);
            }
            Some(v)
        },
        None => match ran {
            Some(result) => if result.success {
                Some(parse_extension_list(&result.stdout))
            } else {
                None
            },
            None => None,
        },
    }
}

// Extensions.

/// The map of the hashes of extensions; the last one of a name counts.
pub open spec fn hash_map(current: Seq<(Seq<char>, Seq<char>)>) -> Map<Seq<char>, Seq<char>>
    decreases current.len(),
{
    if current.len() == 0 {
        Map::empty()
    } else {
        hash_map(current.drop_last()).insert(current.last().0, current.last().1)
    }
}

/// An extension has to be exported: it has no hash, or not the one it had.
pub open spec fn is_changed(
    last: Map<Seq<char>, Seq<char>>,
    name: Seq<char>,
    hash: Seq<char>,
) -> bool {
    hash.len() == 0 || !last.dom().contains(name) || last[name] != hash
}

/// The names of the extensions that have to be exported, in their order.
pub open spec fn changed_names(
    current: Seq<(Seq<char>, Seq<char>)>,
    last: Map<Seq<char>, Seq<char>>,
) -> Seq<Seq<char>>
    decreases current.len(),
{
    if current.len() == 0 {
        Seq::empty()
    } else if is_changed(last, current.last().0, current.last().1) {
        changed_names(current.drop_last(), last).push(current.last().0)
    } else {
        changed_names(current.drop_last(), last)
    }
}

/// The names of all extensions, in their order.
pub open spec fn all_names(current: Seq<(Seq<char>, Seq<char>)>) -> Seq<Seq<char>> {
    current.map_values(|p: (Seq<char>, Seq<char>)| p.0)
}

/// The names that are gone, in their order.
pub open spec fn gone_names(
    keys: Seq<Seq<char>>,
    current: Map<Seq<char>, Seq<char>>,
) -> Seq<Seq<char>>
    decreases keys.len(),
{
    if keys.len() == 0 {
        Seq::empty()
    } else if current.dom().contains(keys.last()) {
        gone_names(keys.drop_last(), current)
    } else {
        gone_names(keys.drop_last(), current).push(keys.last())
    }
}

/// What an export of extensions has to do.
#[derive(Debug)]
pub struct ExtensionPlan {
    pub to_export: Vec<String>,
    pub to_remove: Vec<String>,
}

/// The map of the hashes of extensions.
pub fn current_hashes(current: &Vec<(String, String)>) -> (r: StrMap<String>)
    ensures
        string_values(r@) == hash_map(pair_views(current@)),
{
    let ghost all = pair_views(current@);
    let mut out: StrMap<String> = StrMap::new();
    assert(string_values(out@) =~= Map::empty());
    for i in 0..current.len()
        invariant
            all == pair_views(current@),
            string_values(out@) == hash_map(all.take(i as int)),
    {
        assert(all.take(i + 1).drop_last() =~= all.take(i as int));
        let ghost before = out@;
        let hash = current[i].1.clone();
        out.insert(current[i].0.clone(), hash);
        assert(string_values(before.insert(all[i as int].0, hash)) =~= string_values(
            before,
        ).insert(all[i as int].0, hash@));
    }
    assert(all.take(current@.len() as int) =~= all);
    out
}

/// What an export of extensions has to do: incrementally, what has changed
/// since the last hashes is exported and what is gone is removed; else all is
/// exported.
pub fn plan_extensions(
    current: &Vec<(String, String)>,
    last: &StrMap<String>,
    incremental: bool,
) -> (r: ExtensionPlan)
    ensures
        incremental ==> text::views(r.to_export@) == changed_names(
            pair_views(current@),
            string_values(last@),
        ) && text::views(r.to_remove@) == gone_names(last.keys(), hash_map(pair_views(current@))),
        !incremental ==> text::views(r.to_export@) == all_names(pair_views(current@))
            && r.to_remove@.len() == 0,
{
    let ghost all = pair_views(current@);
    let mut to_export: Vec<String> = Vec::new();
    let mut to_remove: Vec<String> = Vec::new();
    if !incremental {
        for i in 0..current.len()
            invariant
                all == pair_views(current@),
                text::views(to_export@) == all_names(all).take(i as int),
        {
            let ghost before = to_export@;
            let name = current[i].0.clone();
            to_export.push(name);
            assert(text::views(to_export@) =~= text::views(before).push(name@));
            assert(all_names(all).take(i + 1) =~= all_names(all).take(i as int).push(
                all_names(all)[i as int],
            ));
        }
        assert(all_names(all).take(current@.len() as int) =~= all_names(all));
        return ExtensionPlan { to_export, to_remove };
    }
    let ghost old = string_values(last@);
    for i in 0..current.len()
        invariant
            all == pair_views(current@),
            old == string_values(last@),
            text::views(to_export@) == changed_names(all.take(i as int), old),
    {
        assert(all.take(i + 1).drop_last() =~= all.take(i as int));
        let changed = if current[i].1.as_str().is_empty() {
            true
        } else {
            match last.get(&current[i].0) {
                Some(hash) => *hash != current[i].1,
                None => true,
            }
        };
        if changed {
            let ghost before = to_export@;
            let name = current[i].0.clone();
            to_export.push(name);
            assert(text::views(to_export@) =~= text::views(before).push(name@));
        }
    }
    assert(all.take(current@.len() as int) =~= all);
    let now = current_hashes(current);
    let ghost now_map = string_values(now@);
    let n: usize = last.len();
    for i in 0..n
        invariant
            n == last.keys().len(),
            now_map == string_values(now@),
            text::views(to_remove@) == gone_names(last.keys().take(i as int), now_map),
    {
        assert(last.keys().take(i + 1).drop_last() =~= last.keys().take(i as int));
        let key = last.key_at(i);
        assert(now_map.dom().contains(key@) == now@.dom().contains(key@));
        if !now.contains_key(key) {
            let ghost before = to_remove@;
            to_remove.push(key.clone());
            assert(text::views(to_remove@) =~= text::views(before).push(key@));
        }
    }
    assert(last.keys().take(n as int) =~= last.keys());
    ExtensionPlan { to_export, to_remove }
}

/// The hash that was kept of an extension before, or an empty one.
pub open spec fn previous_hash(name: Seq<char>, last: Map<Seq<char>, Seq<char>>) -> Seq<char> {
    if last.dom().contains(name) {
        last[name]
    } else {
        Seq::empty()
    }
}

/// The hash that is kept of an extension: its own where all went well or it
/// did, else the one that was kept before, or an empty one. One that failed
/// keeps an empty hash where the one from before is its own: it has to look
/// changed.
pub open spec fn kept_hash(
    name: Seq<char>,
    hash: Seq<char>,
    results: Map<Seq<char>, bool>,
    last: Map<Seq<char>, Seq<char>>,
) -> Seq<char> {
    if !any_failed(results) || (results.dom().contains(name) && results[name]) {
        hash
    } else if results.dom().contains(name) && previous_hash(name, last) == hash {
        Seq::empty()
    } else {
        previous_hash(name, last)
    }
}

/// The hashes that are kept after an export.
pub open spec fn kept_hashes(
    now: Map<Seq<char>, Seq<char>>,
    results: Map<Seq<char>, bool>,
    last: Map<Seq<char>, Seq<char>>,
) -> Map<Seq<char>, Seq<char>> {
    Map::new(
        |k: Seq<char>| now.dom().contains(k),
        |k: Seq<char>| kept_hash(k, now[k], results, last),
    )
}

/// The hashes that are kept after an export: a failed extension keeps the one
/// from before, or an empty one where that is its own, so that the next export
/// sees that it has changed.
pub fn hashes_to_save(
    current: &Vec<(String, String)>,
    results: &StrMap<bool>,
    last: &StrMap<String>,
) -> (r: StrMap<String>)
    ensures
        string_values(r@) == kept_hashes(
            hash_map(pair_views(current@)),
            results@,
            string_values(last@),
        ),
{
    let now = current_hashes(current);
    let ghost now_map = string_values(now@);
    let ghost old = string_values(last@);
    let failed = has_failed(results);
    let n: usize = now.len();
    let ghost keys = now.keys();
    let mut out: StrMap<String> = StrMap::new();
    for i in 0..n
        invariant
            n == keys.len(),
            keys == now.keys(),
            now_map == string_values(now@),
            old == string_values(last@),
            failed == any_failed(results@),
            forall|k: Seq<char>| #[trigger]
                out@.dom().contains(k) == keys.take(i as int).contains(k),
            forall|k: Seq<char>| #[trigger]
                out@.dom().contains(k) ==> now@.dom().contains(k) && out@[k]@ == kept_hash(
                    k,
                    now_map[k],
                    results@,
                    old,
                ),
    {
        let name = now.key_at(i).clone();
        let hash = now.value_at(i);
        let kept = if !failed {
            hash.clone()
        } else {
            let previous = match last.get(&name) {
                Some(h) => h.clone(),
                None => String::new(),
            };
            match results.get(&name) {
                Some(ok) => if *ok {
                    hash.clone()
                } else if text::same(&previous, hash) {
                    String::new()
                } else {
                    previous
                },
                None => previous,
            }
        };
        assert(now_map[name@] == hash@);
        assert(kept@ == kept_hash(name@, now_map[name@], results@, old));
        let ghost before = out@;
        out.insert(name, kept);
        proof {
            let k0 = keys.take(i as int);
            let k1 = keys.take(i + 1);
            assert(k1 =~= k0.push(keys[i as int]));
            assert forall|k: Seq<char>| #[trigger] out@.dom().contains(k) == k1.contains(k) by {
                if k0.contains(k) {
                    let j = k0.index_of(k);
                    assert(k1[j] == k);
                }
                if k1.contains(k) {
                    let j = k1.index_of(k);
                    if j < i {
                        assert(k0[j] == k);
                    }
                }
                assert(k1[i as int] == keys[i as int]);
                assert(before.dom().contains(k) == k0.contains(k));
            }
        }
    }
    proof {
        let want = kept_hashes(now_map, results@, old);
        assert(keys.take(n as int) =~= keys);
        assert forall|k: Seq<char>| string_values(out@).dom().contains(k) == want.dom().contains(
            k,
        ) by {
            assert(now@.dom().contains(k) == keys.contains(k));
            assert(out@.dom().contains(k) == keys.contains(k));
        }
        assert(string_values(out@) =~= want);
    }
    out
}

/// The text of the result of an export of `total` extensions.
pub fn extensions_outcome(results: &StrMap<bool>, total: usize) -> (r: String)
    ensures
        total == 0 ==> r@ == "ИТОГИ: 0 расширений требовало обновления — всё актуально"@,
        total > 0 ==> r@ == "ИТОГИ: "@ + text::dec(ok_count(results.keys(), results@)) + "/"@
            + text::dec(total as nat) + " расширений успешно"@,
{
    if total == 0 {
        return "ИТОГИ: 0 расширений требовало обновления — всё актуально".to_owned();
    }
    let mut s = "ИТОГИ: ".to_owned();
    let ok = text::dec_of(count_ok(results) as u64);
    s.append(&ok);
    s.append("/");
    let all = text::dec_of(total as u64);
    s.append(&all);
    s.append(" расширений успешно");
    s
}

// Laws of extensions.

proof fn lemma_changed_names(
    current: Seq<(Seq<char>, Seq<char>)>,
    last: Map<Seq<char>, Seq<char>>,
    name: Seq<char>,
)
    ensures
        changed_names(current, last).contains(name) <==> exists|i: int|
            0 <= i < current.len() && (#[trigger] current[i]).0 == name && is_changed(
                last,
                current[i].0,
                current[i].1,
            ),
    decreases current.len(),
{
    if current.len() > 0 {
        let c0 = current.drop_last();
        lemma_changed_names(c0, last, name);
        let r0 = changed_names(c0, last);
        let r = changed_names(current, last);
        if r0.contains(name) {
            let i = r0.index_of(name);
            assert(r[i] == name);
            let j = choose|j: int|
                0 <= j < c0.len() && (#[trigger] c0[j]).0 == name && is_changed(
                    last,
                    c0[j].0,
                    c0[j].1,
                );
            assert(current[j].0 == name && is_changed(last, current[j].0, current[j].1));
        }
        if r.contains(name) && !r0.contains(name) {
            let i = r.index_of(name);
            if i < r0.len() {
                assert(r0[i] == name);
            }
            let n = current.len() - 1;
            assert(current[n].0 == name && is_changed(last, current[n].0, current[n].1));
        }
        if exists|i: int|
            0 <= i < current.len() && (#[trigger] current[i]).0 == name && is_changed(
                last,
                current[i].0,
                current[i].1,
            ) {
            let i = choose|i: int|
                0 <= i < current.len() && (#[trigger] current[i]).0 == name && is_changed(
                    last,
                    current[i].0,
                    current[i].1,
                );
            if i < c0.len() {
                assert(c0[i].0 == name && is_changed(last, c0[i].0, c0[i].1));
                assert(r0.contains(name));
            } else {
                assert(r[r.len() - 1] == name);
            }
        }
    }
}

proof fn lemma_hash_map(current: Seq<(Seq<char>, Seq<char>)>, name: Seq<char>)
    ensures
        hash_map(current).dom().contains(name) <==> all_names(current).contains(name),
        hash_map(current).dom().contains(name) ==> exists|i: int|
            0 <= i < current.len() && (#[trigger] current[i]).0 == name && current[i].1 == hash_map(
                current,
            )[name],
    decreases current.len(),
{
    if current.len() > 0 {
        let c0 = current.drop_last();
        lemma_hash_map(c0, name);
        if all_names(c0).contains(name) {
            let i = all_names(c0).index_of(name);
            assert(all_names(current)[i] == name);
        }
        if all_names(current).contains(name) {
            let i = all_names(current).index_of(name);
            if i < c0.len() {
                assert(all_names(c0)[i] == name);
            }
        }
        assert(all_names(current)[current.len() - 1] == current.last().0);
        if hash_map(current).dom().contains(name) {
            if current.last().0 == name {
                let n = current.len() - 1;
                assert(current[n].0 == name && current[n].1 == hash_map(current)[name]);
            } else {
                let i = choose|i: int|
                    0 <= i < c0.len() && (#[trigger] c0[i]).0 == name && c0[i].1 == hash_map(
                        c0,
                    )[name];
                assert(current[i].0 == name && current[i].1 == hash_map(current)[name]);
            }
        }
    }
}

/// The hash is the one that was kept of an extension before, which has another
/// one in `current`: the extension went back to what was exported last.
pub open spec fn went_back(
    current: Seq<(Seq<char>, Seq<char>)>,
    last: Map<Seq<char>, Seq<char>>,
    name: Seq<char>,
    hash: Seq<char>,
) -> bool {
    &&& hash_map(current).dom().contains(name)
    &&& hash_map(current)[name] != hash
    &&& last.dom().contains(name)
    &&& last[name] == hash
}

/// An extension that failed is exported again next time, whether its hash stays
/// or becomes another, unless it goes back to the hash from before.
pub proof fn failed_extension_is_tried_again(
    current: Seq<(Seq<char>, Seq<char>)>,
    results: Map<Seq<char>, bool>,
    last: Map<Seq<char>, Seq<char>>,
    next: Seq<(Seq<char>, Seq<char>)>,
    name: Seq<char>,
)
    requires
        results.dom().contains(name),
        !results[name],
        exists|i: int|
            0 <= i < next.len() && (#[trigger] next[i]).0 == name && !went_back(
                current,
                last,
                name,
                next[i].1,
            ),
    ensures
        changed_names(next, kept_hashes(hash_map(current), results, last)).contains(name),
{
    let kept = kept_hashes(hash_map(current), results, last);
    let i = choose|i: int|
        0 <= i < next.len() && (#[trigger] next[i]).0 == name && !went_back(
            current,
            last,
            name,
            next[i].1,
        );
    assert(any_failed(results));
    if hash_map(current).dom().contains(name) {
        assert(kept[name] == kept_hash(name, hash_map(current)[name], results, last));
    }
    assert(is_changed(kept, next[i].0, next[i].1));
    lemma_changed_names(next, kept, name);
}

/// An extension with a hash is not exported again while the hash stays, where
/// all went well, where it was exported, or where it was not to be exported
/// because it had not changed.
pub proof fn exported_extension_is_up_to_date(
    current: Seq<(Seq<char>, Seq<char>)>,
    results: Map<Seq<char>, bool>,
    last: Map<Seq<char>, Seq<char>>,
    name: Seq<char>,
)
    requires
        !any_failed(results) || (results.dom().contains(name) && results[name]) || (
        !results.dom().contains(name) && !is_changed(last, name, hash_map(current)[name])),
        forall|i: int|
            0 <= i < current.len() && (#[trigger] current[i]).0 == name ==> current[i].1.len() > 0
                && current[i].1 == hash_map(current)[name],
    ensures
        !changed_names(current, kept_hashes(hash_map(current), results, last)).contains(name),
{
    let kept = kept_hashes(hash_map(current), results, last);
    lemma_hash_map(current, name);
    lemma_changed_names(current, kept, name);
    if changed_names(current, kept).contains(name) {
        let i = choose|i: int|
            0 <= i < current.len() && (#[trigger] current[i]).0 == name && is_changed(
                kept,
                current[i].0,
                current[i].1,
            );
        assert(all_names(current)[i] == name);
        assert(kept[name] == current[i].1);
    }
}

/// Exactly the extensions that were kept and are no longer listed are removed,
/// and their hashes are not kept.
pub proof fn gone_extensions_are_removed(
    keys: Seq<Seq<char>>,
    now: Map<Seq<char>, Seq<char>>,
    results: Map<Seq<char>, bool>,
    last: Map<Seq<char>, Seq<char>>,
    name: Seq<char>,
)
    ensures
        gone_names(keys, now).contains(name) <==> keys.contains(name) && !now.dom().contains(name),
        gone_names(keys, now).contains(name) ==> !kept_hashes(
            now,
            results,
            last,
        ).dom().contains(name),
    decreases keys.len(),
{
    if keys.len() > 0 {
        let k0 = keys.drop_last();
        gone_extensions_are_removed(k0, now, results, last, name);
        let g0 = gone_names(k0, now);
        let g = gone_names(keys, now);
        if keys.contains(name) {
            let i = keys.index_of(name);
            if i < k0.len() {
                assert(k0[i] == name);
            }
        }
        if k0.contains(name) {
            let i = k0.index_of(name);
            assert(keys[i] == name);
        }
        if g0.contains(name) {
            let i = g0.index_of(name);
            assert(g[i] == name);
        }
        if g.contains(name) {
            let i = g.index_of(name);
            if i < g0.len() {
                assert(g0[i] == name);
            } else {
                assert(keys[keys.len() - 1] == name);
            }
        }
        if !now.dom().contains(keys.last()) {
            assert(g[g.len() - 1] == keys.last());
        }
        assert(keys[keys.len() - 1] == keys.last());
    }
}

// The coordinator.

/// An export of one base: its configuration and the name under which its state
/// is kept.
#[derive(Debug, Clone)]
pub struct ExportCoordinator {
    pub config: AppConfig,
    pub repo_id: String,
}

/// The name of a directory, or `default` where it has none.
pub open spec fn name_or_default(name: Option<Seq<char>>) -> Seq<char> {
    match name {
        Some(n) => if n.len() > 0 {
            n
        } else {
            "default"@
        },
        None => "default"@,
    }
}

/// The name under which a state is kept, from the name of its directory.
pub fn repo_id_of(name: Option<String>) -> (r: String)
    ensures
        r@ == name_or_default(text::opt_view(name)),
{
    match name {
        Some(n) => if n.as_str().is_empty() {
            "default".to_owned()
        } else {
            n
        },
        None => "default".to_owned(),
    }
}

/// What a whole export consists of.
#[derive(Debug, Clone, Copy, PartialEq, Eq, Structural)]
pub enum Part {
    Base,
    Extensions,
    Processings,
}

/// The parts that were asked for, in their order.
pub open spec fn parts_of(opts: ExportOptions) -> Seq<Part> {
    let base = if opts.export_base {
        seq![Part::Base]
    } else {
        Seq::empty()
    };
    let extensions = if opts.export_extensions {
        seq![Part::Extensions]
    } else {
        Seq::empty()
    };
    let processings = if opts.export_processings {
        seq![Part::Processings]
    } else {
        Seq::empty()
    };
    base + extensions + processings
}

/// The name under which the state of an export into a directory is kept.
pub open spec fn is_repo_id(path: Seq<char>, id: Seq<char>) -> bool {
    exists|name: Option<Seq<char>>| #[trigger]
        paths::is_file_name(path, name) && id == name_or_default(name)
}

impl ExportCoordinator {
    /// An export whose state is kept under the name of its output directory.
    pub fn new(config: AppConfig) -> (r: ExportCoordinator)
        ensures
            r.config == config,
            is_repo_id(config.output_path@, r.repo_id@),
    {
        let repo_id = Self::derive_repo_id(&config.output_path);
        ExportCoordinator { config, repo_id }
    }

    /// The same export with its state kept under another name; an empty one
    /// changes nothing.
    pub fn with_repo_id(self, repo_id: String) -> (r: ExportCoordinator)
        ensures
            r.config == self.config,
            r.repo_id == if repo_id@.len() > 0 {
                repo_id
            } else {
                self.repo_id
            },
    {
        if repo_id.as_str().is_empty() {
            self
        } else {
            ExportCoordinator { config: self.config, repo_id }
        }
    }

    /// The name of the last directory of a path, or `default`.
    pub fn derive_repo_id(output_path: &str) -> (r: String)
        ensures
            is_repo_id(output_path@, r@),
    {
        repo_id_of(paths::file_name(output_path))
    }

    /// The parts of a whole export, in the order in which they are done.
    pub fn export_full(&self, opts: &ExportOptions) -> (r: Vec<Part>)
        ensures
            r@ == parts_of(*opts),
    {
        let mut parts: Vec<Part> = Vec::new();
        if opts.export_base {
            parts.push(Part::Base);
        }
        if opts.export_extensions {
            parts.push(Part::Extensions);
        }
        if opts.export_processings {
            parts.push(Part::Processings);
        }
        assert(parts@ =~= parts_of(*opts));
        parts
    }

    /// Begins an export of the main configuration.
    pub fn export_base(&self, params: &IbcmdParams, dump_exists: bool, dir_exists: bool) -> (r: (
        BaseExport,
        BaseAction,
    ))
        ensures
            r.0.sync == effective_sync(params.sync, params.force, dump_exists),
            r.0.force == params.force,
            r.0.stage is Prepare,
            r.1 == (BaseAction::Prepare {
                clean: (r.0.force || !r.0.sync) && dir_exists,
            }),
    {
        BaseExport::start(params, dump_exists, dir_exists)
    }

    /// Begins an export of extensions.
    pub fn export_extensions(
        &self,
        params: &IbcmdParams,
        listed: Option<Vec<(String, String)>>,
        last: StrMap<String>,
        save_artifacts: bool,
    ) -> (r: (ExtensionRun, ExtAction))
        ensures
            extension_run::is_started(
                r.0,
                r.1,
                listed,
                last,
                params.incremental_extensions,
                save_artifacts,
            ),
    {
        ExtensionRun::start(listed, last, params.incremental_extensions, save_artifacts)
    }

    /// Begins an export of processors.
    pub fn export_processings(&self, opts: &ExportOptions) -> (r: (ProcStage, ProcAction))
        ensures
            opts.processings_params is Some ==> r.0 is Resolve && r.1@
                == (ProcActionView::Resolve { anew: false }),
            opts.processings_params is None ==> r.0 is Finished && r.1@
                == (ProcActionView::Failed {
                what: "<params>"@,
                why: "отсутствуют processings_params"@,
            }),
    {
        if opts.processings_params.is_some() {
            (ProcStage::Resolve, ProcAction::Resolve { anew: false })
        } else {
            (
                ProcStage::Finished,
                ProcAction::Failed {
                    what: "<params>",
                    why: "отсутствуют processings_params".to_owned(),
                },
            )
        }
    }

    /// What the export of processors needs to know, once it is known where the
    /// catalogue is stored.
    pub fn processings_params(
        &self,
        cli: &ProcessingsCliParams,
        ibcmd: &IbcmdParams,
        mapping: StorageMapping,
    ) -> (r: ProcessingsParams)
        ensures
            r.sql_server@ == cli.sql_server@,
            r.repo_id@ == self.repo_id@,
            r.incremental == cli.incremental,
            r.database@ == crate::config::or_else(
                self.config.sql_database@,
                self.config.database@,
            ),
            r.db_auth == ibcmd.db_auth,
            text::opt_view(r.db_user) == text::opt_view(ibcmd.db_user),
            text::opt_view(r.db_pwd) == text::opt_view(ibcmd.db_pwd),
            r.mapping == mapping,
            r.kind_uuid_to_name@ == Map::<Seq<char>, String>::empty(),
    {
        ProcessingsParams {
            sql_server: cli.sql_server.clone(),
            repo_id: self.repo_id.clone(),
            incremental: cli.incremental,
            database: self.config.sql_database_name().to_owned(),
            db_auth: ibcmd.db_auth,
            db_user: text::clone_opt(&ibcmd.db_user),
            db_pwd: text::clone_opt(&ibcmd.db_pwd),
            mapping,
            kind_uuid_to_name: StrMap::new(),
        }
    }
}

/// Where the output directory ends with a plain name, the state is kept under
/// that name; slashes behind it do not count. It is kept under `default` where
/// the path is empty, is made of slashes or ends with the parent of a
/// directory, and always under some name.
pub proof fn state_is_named_after_the_directory(path: Seq<char>, id: Seq<char>, name: Seq<char>)
    requires
        is_repo_id(path, id),
    ensures
        id.len() > 0,
        paths::is_last(path, name) ==> id == name,
        (forall|i: int| 0 <= i < path.len() ==> path[i] == '/') ==> id == "default"@,
        path == ".."@ || (text::ends(path, "/.."@) && !paths::is_share(path)) ==> id
            == "default"@,
{
    reveal_strlit("default");
    reveal_strlit("..");
    reveal_strlit(".");
    if paths::is_last(path, name) {
        paths::lemma_last_component(path, name, false);
        paths::lemma_last_component(path, name, true);
    }
    if forall|i: int| 0 <= i < path.len() ==> path[i] == '/' {
        paths::lemma_no_component(path, false);
        paths::lemma_no_component(path, true);
        assert(paths::is_slashes(path));
        assert("."@.len() == 1);
        assert(paths::last_component(path, true) =~= Seq::empty());
    }
    if path == ".."@ || (text::ends(path, "/.."@) && !paths::is_share(path)) {
        paths::lemma_parent_component(path, false);
        paths::lemma_parent_component(path, true);
        assert(!paths::is_share(path)) by {
            if path == ".."@ {
                assert(path[0] == '.');
            }
        }
        assert(".."@.len() != "."@.len());
        assert(!".."@.contains(':')) by {
            assert(".."@[0] == '.' && ".."@[1] == '.');
        }
    }
}

// Where the catalogue of processors is stored.

/// The next step on the way to the SQL names of the catalogue.
#[derive(Debug)]
pub enum MappingStep {
    /// These are the names.
    Use(StorageMapping),
    /// The service tables of the database are asked.
    AskSql,
    /// The service inside the base is asked.
    AskMcp,
    /// There is no way.
    Fail(ExportError),
}

/// The next step on the way to the SQL names.
pub enum MappingStepView {
    Use(MappingView),
    AskSql,
    AskMcp,
    Fail(ErrorView),
}

impl View for MappingStep {
    type V = MappingStepView;

    open spec fn view(&self) -> MappingStepView {
        match *self {
            MappingStep::Use(m) => MappingStepView::Use(m@),
            MappingStep::AskSql => MappingStepView::AskSql,
            MappingStep::AskMcp => MappingStepView::AskMcp,
            MappingStep::Fail(e) => MappingStepView::Fail(e@),
        }
    }
}

/// Names that were kept can be used: they are names of the database.
pub open spec fn usable(m: MappingView) -> bool {
    text::starts(m.table, "_"@) && text::starts(m.field_storage, "_"@) && text::starts(
        m.field_hash,
        "_"@,
    )
}

/// What was kept of an earlier discovery, by its views.
pub open spec fn kept_mapping(d: Discovery) -> MappingView {
    MappingView {
        table: d.table@,
        field_storage: d.field_storage@,
        field_hash: d.field_hash@,
        field_kind: d.field_kind@,
        enum_table: d.enum_table@,
        hash_is_binary: d.hash_is_binary,
    }
}

/// The service inside the base is configured.
pub open spec fn mcp_configured(c: AppConfig) -> bool {
    text::trim(c.mcp_url@).len() > 0 && text::trim(c.mcp_api_key@).len() > 0
}

/// How a message shows whether there is a key.
pub open spec fn shown_key(key: Seq<char>) -> Seq<char> {
    if key.len() == 0 {
        "<пусто>"@
    } else {
        "<задан>"@
    }
}

/// The error of a discovery that only the service could make.
pub open spec fn no_service_error(c: AppConfig) -> ErrorView {
    ErrorView::CommandFailed(
        -1,
        "Запрошен --discovery=mcp, но HTTP-сервис не задан (mcpUrl='"@ + c.mcp_url@
            + "', mcpApiKey="@ + shown_key(c.mcp_api_key@) + ")."@,
    )
}

/// The error of a discovery after the database did not tell.
pub open spec fn no_way_error(c: AppConfig, sql_error: Seq<char>) -> ErrorView {
    ErrorView::CommandFailed(
        -1,
        "Не удалось определить структуру хранения справочника допобработок.\nПрямое определение по MS SQL не сработало: "@
            + sql_error
            + "\nЗапасной путь (HTTP-сервис MCP в ИБ) недоступен: mcpUrl='"@ + c.mcp_url@
            + "', mcpApiKey="@ + shown_key(c.mcp_api_key@)
            + ".\nВарианты: дать доступ к СУБД, задать mcpUrl/mcpApiKey, передать известный mapping через CLI override или выключить выгрузку допобработок."@,
    )
}

/// The first step: names given by hand come first, then usable ones that were
/// kept, then discovery in the wanted mode.
pub open spec fn first_step(
    given: Option<MappingView>,
    rediscover: bool,
    kept: Option<MappingView>,
    mode: DiscoveryMode,
    c: AppConfig,
) -> MappingStepView {
    if given is Some {
        MappingStepView::Use(given->0)
    } else if !rediscover && kept is Some && usable(kept->0) {
        MappingStepView::Use(kept->0)
    } else if mode == DiscoveryMode::Mcp {
        if mcp_configured(c) {
            MappingStepView::AskMcp
        } else {
            MappingStepView::Fail(no_service_error(c))
        }
    } else {
        MappingStepView::AskSql
    }
}

/// The view of an optional mapping.
pub open spec fn opt_mapping(m: Option<StorageMapping>) -> Option<MappingView> {
    match m {
        Some(x) => Some(x@),
        None => None,
    }
}

/// The view of an optional earlier discovery.
pub open spec fn opt_kept(d: Option<Discovery>) -> Option<MappingView> {
    match d {
        Some(x) => Some(kept_mapping(x)),
        None => None,
    }
}

/// A copy of a mapping.
pub fn copy_mapping(m: &StorageMapping) -> (r: StorageMapping)
    ensures
        r@ == m@,
{
    StorageMapping {
        table: m.table.clone(),
        field_storage: m.field_storage.clone(),
        field_hash: m.field_hash.clone(),
        field_kind: m.field_kind.clone(),
        enum_table: m.enum_table.clone(),
        hash_is_binary: m.hash_is_binary,
    }
}

/// Whether the service inside the base is configured.
pub fn mcp_available(config: &AppConfig) -> (r: bool)
    ensures
        r == mcp_configured(*config),
{
    !text::trimmed(&config.mcp_url).as_str().is_empty() && !text::trimmed(
        &config.mcp_api_key,
    ).as_str().is_empty()
}

/// How a message shows whether there is a key.
fn show_key(key: &str) -> (r: &'static str)
    ensures
        r@ == shown_key(key@),
{
    if key.is_empty() {
        "<пусто>"
    } else {
        "<задан>"
    }
}

/// The first step on the way to the SQL names of the catalogue. `kept` is what
/// was kept of an earlier discovery.
pub fn resolve_processings_mapping(
    cli: &ProcessingsCliParams,
    kept: &Option<Discovery>,
    config: &AppConfig,
) -> (r: MappingStep)
    ensures
        r@ == first_step(
            opt_mapping(cli.override_mapping),
            cli.rediscover,
            opt_kept(*kept),
            cli.discovery,
            *config,
        ),
{
    if let Some(m) = &cli.override_mapping {
        return MappingStep::Use(copy_mapping(m));
    }
    if !cli.rediscover {
        if let Some(d) = kept {
            if text::starts_with(&d.table, "_") && text::starts_with(&d.field_storage, "_")
                && text::starts_with(&d.field_hash, "_") {
                return MappingStep::Use(d.mapping());
            }
        }
    }
    match cli.discovery {
        DiscoveryMode::Mcp => {
            if mcp_available(config) {
                return MappingStep::AskMcp;
            }
            let mut m =
                "Запрошен --discovery=mcp, но HTTP-сервис не задан (mcpUrl='".to_owned();
            m.append(&config.mcp_url);
            m.append("', mcpApiKey=");
            m.append(show_key(&config.mcp_api_key));
            m.append(").");
            MappingStep::Fail(ExportError::CommandFailed { code: -1, message: m })
        },
        _ => MappingStep::AskSql,
    }
}

/// The step after the database did not tell: where any way will do, the
/// service is asked if it is configured.
pub open spec fn step_after_sql(mode: DiscoveryMode, e: ErrorView, c: AppConfig) -> MappingStepView {
    if mode != DiscoveryMode::Auto {
        MappingStepView::Fail(e)
    } else if mcp_configured(c) {
        MappingStepView::AskMcp
    } else {
        MappingStepView::Fail(no_way_error(c, crate::error::error_text(e)))
    }
}

/// The step after the database did not tell.
pub fn after_sql_failure(mode: DiscoveryMode, error: ExportError, config: &AppConfig) -> (r:
    MappingStep)
    ensures
        r@ == step_after_sql(mode, error@, *config),
{
    if mode != DiscoveryMode::Auto {
        return MappingStep::Fail(error);
    }
    if mcp_available(config) {
        return MappingStep::AskMcp;
    }
    let mut m =
        "Не удалось определить структуру хранения справочника допобработок.\nПрямое определение по MS SQL не сработало: ".to_owned();
    let why = error.message();
    m.append(&why);
    m.append("\nЗапасной путь (HTTP-сервис MCP в ИБ) недоступен: mcpUrl='");
    m.append(&config.mcp_url);
    m.append("', mcpApiKey=");
    m.append(show_key(&config.mcp_api_key));
    m.append(
        ".\nВарианты: дать доступ к СУБД, задать mcpUrl/mcpApiKey, передать известный mapping через CLI override или выключить выгрузку допобработок.",
    );
    MappingStep::Fail(ExportError::CommandFailed { code: -1, message: m })
}

/// The metadata name of the catalogue that discovery looks for.
pub fn discovery_meta_name(config: &AppConfig) -> (r: &str)
    ensures
        r@ == if text::trim(config.processings_meta_name@).len() == 0 {
            "Справочник.ДополнительныеОтчетыИОбработки"@
        } else {
            config.processings_meta_name@
        },
{
    if text::trimmed(&config.processings_meta_name).as_str().is_empty() {
        "Справочник.ДополнительныеОтчетыИОбработки"
    } else {
        config.processings_meta_name.as_str()
    }
}

/// A mapping with its table of kinds; without one where that was not found.
pub fn with_enum_table(mapping: StorageMapping, found: Result<String, String>) -> (r: StorageMapping)
    ensures
        r@ == (MappingView {
            enum_table: match found {
                Ok(t) => t@,
                Err(_) => Seq::empty(),
            },
            ..mapping@
        }),
{
    let enum_table = match found {
        Ok(t) => t,
        Err(_) => String::new(),
    };
    StorageMapping {
        table: mapping.table,
        field_storage: mapping.field_storage,
        field_hash: mapping.field_hash,
        field_kind: mapping.field_kind,
        enum_table,
        hash_is_binary: mapping.hash_is_binary,
    }
}

/// Names given by hand are used whatever else is there; names found anew are
/// never those that were kept.
pub proof fn given_names_come_first(
    given: Option<MappingView>,
    kept: Option<MappingView>,
    mode: DiscoveryMode,
    rediscover: bool,
    c: AppConfig,
)
    ensures
        given is Some ==> first_step(given, rediscover, kept, mode, c) == MappingStepView::Use(
            given->0,
        ),
        given is None ==> !(first_step(given, true, kept, mode, c) is Use),
{
}

// An export of processors.

/// The error tells that the names of the catalogue are out of date.
pub open spec fn tells_stale_names(message: Seq<char>) -> bool {
    ||| text::has(message, "Invalid column name"@)
    ||| text::has(message, "Invalid object name"@)
    ||| text::has(message, "Недопустимое имя столбца"@)
    ||| text::has(message, "Недопустимое имя объекта"@)
}

/// Whether an error tells that the names of the catalogue are out of date.
pub fn is_stale_mapping(message: &str) -> (r: bool)
    ensures
        r == tells_stale_names(message@),
{
    text::contains(message, "Invalid column name") || text::contains(
        message,
        "Invalid object name",
    ) || text::contains(message, "Недопустимое имя столбца") || text::contains(
        message,
        "Недопустимое имя объекта",
    )
}

/// The parameters of a second try: the names are found anew.
pub fn retry_params(cli: &ProcessingsCliParams) -> (r: ProcessingsCliParams)
    ensures
        r.sql_server@ == cli.sql_server@,
        r.override_mapping is None,
        r.rediscover,
        r.incremental == cli.incremental,
        r.discovery == cli.discovery,
{
    ProcessingsCliParams {
        sql_server: cli.sql_server.clone(),
        override_mapping: None,
        rediscover: true,
        incremental: cli.incremental,
        discovery: cli.discovery,
    }
}

/// The result of an export of processors that did not come about.
pub fn failed_processings(what: &str, why: String) -> (r: ProcessingsResult)
    ensures
        r.new == 0 && r.changed == 0 && r.unchanged == 0 && r.deleted == 0,
        r.skipped_empty@.len() == 0 && r.fresh_names@.len() == 0,
        r.failed@.len() == 1,
        r.failed@[0].0@ == what@,
        r.failed@[0].1 == why,
{
    let mut result = ProcessingsResult::default();
    result.failed.push((what.to_owned(), why));
    result
}

/// Where an export of processors stands.
#[derive(Debug, Clone, Copy, PartialEq, Eq, Structural)]
pub enum ProcStage {
    Resolve,
    Export,
    ResolveAgain,
    ExportAgain,
    Finished,
}

/// What an export of processors asks for next.
#[derive(Debug)]
pub enum ProcAction {
    /// Find the names of the catalogue; `anew` tells not to take those that
    /// are given or kept.
    Resolve { anew: bool },
    /// Export with the names that were found.
    Export,
    /// The export is over; it did what it did.
    Done,
    /// The export is over; it failed.
    Failed { what: &'static str, why: String },
}

/// What an export of processors asks for next.
pub enum ProcActionView {
    Resolve { anew: bool },
    Export,
    Done,
    Failed { what: Seq<char>, why: Seq<char> },
}

impl View for ProcAction {
    type V = ProcActionView;

    open spec fn view(&self) -> ProcActionView {
        match *self {
            ProcAction::Resolve { anew } => ProcActionView::Resolve { anew },
            ProcAction::Export => ProcActionView::Export,
            ProcAction::Done => ProcActionView::Done,
            ProcAction::Failed { what, why } => ProcActionView::Failed { what: what@, why: why@ },
        }
    }
}

/// What an export of processors does at a stage, where `error` is that of the
/// last action, if it failed. One that fails because the names are out of date
/// is repeated once, with the names found anew.
pub open spec fn proc_next(stage: ProcStage, error: Option<Seq<char>>) -> (
    ProcStage,
    ProcActionView,
) {
    match (stage, error) {
        (ProcStage::Resolve, None) => (ProcStage::Export, ProcActionView::Export),
        (ProcStage::Resolve, Some(e)) => (
            ProcStage::Finished,
            ProcActionView::Failed { what: "<mapping>"@, why: e },
        ),
        (ProcStage::Export, Some(e)) => if tells_stale_names(e) {
            (ProcStage::ResolveAgain, ProcActionView::Resolve { anew: true })
        } else {
            (ProcStage::Finished, ProcActionView::Failed { what: "<fatal>"@, why: e })
        },
        (ProcStage::ResolveAgain, None) => (ProcStage::ExportAgain, ProcActionView::Export),
        (_, Some(e)) => (
            ProcStage::Finished,
            ProcActionView::Failed { what: "<fatal>"@, why: e },
        ),
        (_, None) => (ProcStage::Finished, ProcActionView::Done),
    }
}

/// What an export of processors does at a stage, where `error` is that of the
/// last action, if it failed.
pub fn step_processings(stage: ProcStage, error: Option<String>) -> (r: (ProcStage, ProcAction))
    ensures
        (r.0, r.1@) == proc_next(stage, text::opt_view(error)),
{
    match error {
        None => match stage {
            ProcStage::Resolve => (ProcStage::Export, ProcAction::Export),
            ProcStage::ResolveAgain => (ProcStage::ExportAgain, ProcAction::Export),
            _ => (ProcStage::Finished, ProcAction::Done),
        },
        Some(e) => match stage {
            ProcStage::Resolve => (
                ProcStage::Finished,
                ProcAction::Failed { what: "<mapping>", why: e },
            ),
            ProcStage::Export => {
                if is_stale_mapping(&e) {
                    (ProcStage::ResolveAgain, ProcAction::Resolve { anew: true })
                } else {
                    (ProcStage::Finished, ProcAction::Failed { what: "<fatal>", why: e })
                }
            },
            _ => (ProcStage::Finished, ProcAction::Failed { what: "<fatal>", why: e }),
        },
    }
}

/// Where an export of processors stands after the first `n` outcomes.
pub open spec fn proc_after(errors: Seq<Option<Seq<char>>>, n: int) -> ProcStage
    decreases n,
{
    if n <= 0 {
        ProcStage::Resolve
    } else {
        proc_next(proc_after(errors, n - 1), errors[n - 1]).0
    }
}

/// An export of processors ends: the names are found twice at most.
pub proof fn processings_export_ends(errors: Seq<Option<Seq<char>>>, n: int)
    requires
        4 <= n <= errors.len(),
    ensures
        proc_after(errors, n) is Finished,
    decreases n,
{
    if n > 4 {
        processings_export_ends(errors, n - 1);
    } else {
        assert(proc_after(errors, 0) is Resolve);
        assert(proc_after(errors, 1) is Export || proc_after(errors, 1) is Finished);
        assert(proc_after(errors, 2) is ResolveAgain || proc_after(errors, 2) is Finished);
        assert(proc_after(errors, 3) is ExportAgain || proc_after(errors, 3) is Finished);
    }
}

// Unpacking.

/// The number of workers that unpack: as many as the machine has, or four
/// where that is unknown; four at most, and no more than there are files.
pub fn worker_count(available: Option<usize>, total: usize) -> (r: usize)
    ensures
        r as int == {
            let wanted = match available {
                Some(n) => if n < 1 {
                    1int
                } else if n > 4 {
                    4
                } else {
                    n as int
                },
                None => 4,
            };
            let files = if total < 1 {
                1int
            } else {
                total as int
            };
            if wanted < files {
                wanted
            } else {
                files
            }
        },
{
    let wanted: usize = match available {
        Some(n) => if n < 1 {
            1
        } else if n > 4 {
            4
        } else {
            n
        },
        None => 4,
    };
    let files: usize = if total < 1 {
        1
    } else {
        total
    };
    if wanted < files {
        wanted
    } else {
        files
    }
}

/// Where the unpacking of a processor stands.
#[derive(Debug, Clone, Copy, PartialEq, Eq, Structural)]
pub enum UnpackStage {
    Clean,
    Create,
    Read,
    Unpack,
    Finished,
}

/// What the unpacking of a processor asks for next.
#[derive(Debug)]
pub enum UnpackAction {
    /// Remove the target directory.
    Clean,
    /// Make the target directory.
    Create,
    /// Read the file.
    Read,
    /// Unpack what was read into the target directory.
    Unpack,
    /// The processor is unpacked: its file is no longer needed.
    RemoveSource,
    /// The processor could not be unpacked; where `remove_target` is set, the
    /// target directory is removed.
    Fail { message: String, remove_target: bool },
}

/// What the unpacking of a processor asks for next.
pub enum UnpackActionView {
    Clean,
    Create,
    Read,
    Unpack,
    RemoveSource,
    Fail { message: Seq<char>, remove_target: bool },
}

impl View for UnpackAction {
    type V = UnpackActionView;

    open spec fn view(&self) -> UnpackActionView {
        match *self {
            UnpackAction::Clean => UnpackActionView::Clean,
            UnpackAction::Create => UnpackActionView::Create,
            UnpackAction::Read => UnpackActionView::Read,
            UnpackAction::Unpack => UnpackActionView::Unpack,
            UnpackAction::RemoveSource => UnpackActionView::RemoveSource,
            UnpackAction::Fail { message, remove_target } => UnpackActionView::Fail {
                message: message@,
                remove_target,
            },
        }
    }
}

/// What came of an action.
#[derive(Debug)]
pub enum UnpackReply {
    Done,
    /// The file is of a kind that cannot be unpacked.
    Unsupported(String),
    Failed(String),
}

/// The unpacking of one processor.
#[derive(Debug)]
pub struct UnpackJob {
    pub name: String,
    /// The extension of its file.
    pub ext: &'static str,
    /// The path of the target directory, as it is reported.
    pub target: String,
    pub stage: UnpackStage,
}

/// The reply is one that the stage waits for.
pub open spec fn unpack_awaited(stage: UnpackStage, reply: UnpackReply) -> bool {
    match stage {
        UnpackStage::Finished => false,
        UnpackStage::Unpack => true,
        _ => !(reply is Unsupported),
    }
}

/// What the unpacking of a processor does at a stage with a reply.
pub open spec fn unpack_next(
    name: Seq<char>,
    ext: Seq<char>,
    target: Seq<char>,
    stage: UnpackStage,
    reply: UnpackReply,
) -> (UnpackStage, UnpackActionView) {
    match reply {
        UnpackReply::Done => match stage {
            UnpackStage::Clean => (UnpackStage::Create, UnpackActionView::Create),
            UnpackStage::Create => (UnpackStage::Read, UnpackActionView::Read),
            UnpackStage::Read => (UnpackStage::Unpack, UnpackActionView::Unpack),
            _ => (UnpackStage::Finished, UnpackActionView::RemoveSource),
        },
        UnpackReply::Unsupported(why) => (
            UnpackStage::Finished,
            UnpackActionView::Fail {
                message: "не поддерживается: "@ + why@,
                remove_target: true,
            },
        ),
        UnpackReply::Failed(why) => (
            UnpackStage::Finished,
            UnpackActionView::Fail {
                message: match stage {
                    UnpackStage::Clean => "очистка "@ + target + ": "@ + why@,
                    UnpackStage::Create => "создание "@ + target + ": "@ + why@,
                    UnpackStage::Read => "не прочитать "@ + name + ext + ": "@ + why@,
                    _ => "ошибка разбора: "@ + why@,
                },
                remove_target: stage is Read || stage is Unpack || stage is Finished,
            },
        ),
    }
}

/// A path with every backslash turned into a slash.
pub fn slashes(path: &str) -> (r: String)
    ensures
        r@ == text::replace(path@, "\\"@, "/"@),
{
    proof {
        reveal_strlit("\\");
    }
    text::replaced(path, "\\", "/")
}

impl UnpackJob {
    /// Begins the unpacking of a processor: of its `.epf` file where there is
    /// one, else of its `.erf` file; a target directory that is there is
    /// removed first. Where there is neither file, an error that names both.
    pub fn start(
        name: &str,
        epf: (&str, bool),
        erf: (&str, bool),
        target: &str,
        target_exists: bool,
    ) -> (r: Result<(UnpackJob, UnpackAction), String>)
        ensures
            match r {
                Ok((job, action)) => {
                    &&& epf.1 || erf.1
                    &&& job.name@ == name@
                    &&& job.ext@ == if epf.1 {
                        ".epf"@
                    } else {
                        ".erf"@
                    }
                    &&& job.target@ == text::replace(target@, "\\"@, "/"@)
                    &&& target_exists ==> job.stage is Clean && action is Clean
                    &&& !target_exists ==> job.stage is Create && action is Create
                },
                Err(e) => !epf.1 && !erf.1 && e@ == "исходник не найден: ни "@ + text::replace(
                    epf.0@,
                    "\\"@,
                    "/"@,
                ) + " ни "@ + text::replace(erf.0@, "\\"@, "/"@) + " не существуют"@,
            },
    {
        let ext = if epf.1 {
            ".epf"
        } else if erf.1 {
            ".erf"
        } else {
            let mut m = "исходник не найден: ни ".to_owned();
            let a = slashes(epf.0);
            m.append(&a);
            m.append(" ни ");
            let b = slashes(erf.0);
            m.append(&b);
            m.append(" не существуют");
            return Err(m);
        };
        let stage = if target_exists {
            UnpackStage::Clean
        } else {
            UnpackStage::Create
        };
        let action = if target_exists {
            UnpackAction::Clean
        } else {
            UnpackAction::Create
        };
        Ok((UnpackJob { name: name.to_owned(), ext, target: slashes(target), stage }, action))
    }

    /// Takes what came of the last action and says what to do next.
    pub fn step(&mut self, reply: UnpackReply) -> (r: UnpackAction)
        requires
            unpack_awaited(old(self).stage, reply),
        ensures
            final(self).name == old(self).name,
            final(self).ext == old(self).ext,
            final(self).target == old(self).target,
            (final(self).stage, r@) == unpack_next(
                old(self).name@,
                old(self).ext@,
                old(self).target@,
                old(self).stage,
                reply,
            ),
    {
        let stage = self.stage;
        self.stage = UnpackStage::Finished;
        match reply {
            UnpackReply::Done => match stage {
                UnpackStage::Clean => {
                    self.stage = UnpackStage::Create;
                    UnpackAction::Create
                },
                UnpackStage::Create => {
                    self.stage = UnpackStage::Read;
                    UnpackAction::Read
                },
                UnpackStage::Read => {
                    self.stage = UnpackStage::Unpack;
                    UnpackAction::Unpack
                },
                _ => UnpackAction::RemoveSource,
            },
            UnpackReply::Unsupported(why) => {
                let mut message = "не поддерживается: ".to_owned();
                message.append(&why);
                UnpackAction::Fail { message, remove_target: true }
            },
            UnpackReply::Failed(why) => {
                let mut message = match stage {
                    UnpackStage::Clean => "очистка ".to_owned(),
                    UnpackStage::Create => "создание ".to_owned(),
                    UnpackStage::Read => "не прочитать ".to_owned(),
                    _ => "ошибка разбора: ".to_owned(),
                };
                match stage {
                    UnpackStage::Clean | UnpackStage::Create => {
                        message.append(&self.target);
                        message.append(": ");
                    },
                    UnpackStage::Read => {
                        message.append(&self.name);
                        message.append(self.ext);
                        message.append(": ");
                    },
                    _ => {},
                }
                message.append(&why);
                let remove_target = match stage {
                    UnpackStage::Clean | UnpackStage::Create => false,
                    _ => true,
                };
                UnpackAction::Fail { message, remove_target }
            },
        }
    }
}

/// The file of a processor is removed only once the processor is unpacked.
pub proof fn source_stays_until_unpacked(
    name: Seq<char>,
    ext: Seq<char>,
    target: Seq<char>,
    stage: UnpackStage,
    reply: UnpackReply,
)
    requires
        unpack_awaited(stage, reply),
    ensures
        unpack_next(name, ext, target, stage, reply).1 is RemoveSource <==> stage is Unpack
            && reply is Done,
        !(reply is Done) ==> unpack_next(name, ext, target, stage, reply).1 is Fail,
{
}

/// The failures of the workers, in the order of their names, behind those from
/// before.
pub fn with_failures(failed: Vec<(String, String)>, failures: Vec<(String, String)>) -> (r: Vec<
    (String, String),
>)
    ensures
        r@ == failed@ + sorting::in_order(failures@),
{
    let mut out = failed;
    let mut sorted = sorting::sort_by_name(failures);
    out.append(&mut sorted);
    out
}

/// The new paths of what was moved out of the working directories: of a
/// directory, which stands for a file of either extension, and of a file.
pub open spec fn new_paths(dirs: Seq<Seq<char>>, files: Seq<Seq<char>>) -> Map<
    Seq<char>,
    Seq<char>,
>
    decreases dirs.len() + files.len(),
{
    if files.len() > 0 {
        new_paths(dirs, files.drop_last()).insert("processings/"@ + files.last(), files.last())
    } else if dirs.len() > 0 {
        new_paths(dirs.drop_last(), files).insert(
            "processings/"@ + dirs.last() + ".epf"@,
            dirs.last(),
        ).insert("processings/"@ + dirs.last() + ".erf"@, dirs.last())
    } else {
        Map::empty()
    }
}

/// Gives a key a value, and so their views.
fn put_path(m: &mut StrMap<String>, k: String, v: String)
    ensures
        string_values(final(m)@) == string_values(old(m)@).insert(k@, v@),
{
    let ghost before = m@;
    m.insert(k, v);
    assert(string_values(before.insert(k@, v)) =~= string_values(before).insert(k@, v@));
}

/// The new paths of the directories and files that were moved.
pub fn moved_paths(dirs: &Vec<String>, files: &Vec<String>) -> (r: StrMap<String>)
    ensures
        string_values(r@) == new_paths(text::views(dirs@), text::views(files@)),
{
    let ghost d = text::views(dirs@);
    let ghost f = text::views(files@);
    let mut out: StrMap<String> = StrMap::new();
    assert(string_values(out@) =~= Map::empty());
    for i in 0..dirs.len()
        invariant
            d == text::views(dirs@),
            string_values(out@) == new_paths(d.take(i as int), Seq::empty()),
    {
        assert(d.take(i + 1).drop_last() =~= d.take(i as int));
        assert(d[i as int] == dirs@[i as int]@);
        let mut a = "processings/".to_owned();
        a.append(&dirs[i]);
        a.append(".epf");
        let mut b = "processings/".to_owned();
        b.append(&dirs[i]);
        b.append(".erf");
        put_path(&mut out, a, dirs[i].clone());
        put_path(&mut out, b, dirs[i].clone());
    }
    assert(d.take(dirs@.len() as int) =~= d);
    assert(f.take(0) =~= Seq::empty());
    for i in 0..files.len()
        invariant
            f == text::views(files@),
            string_values(out@) == new_paths(d, f.take(i as int)),
    {
        assert(f.take(i + 1).drop_last() =~= f.take(i as int));
        assert(f[i as int] == files@[i as int]@);
        let mut a = "processings/".to_owned();
        a.append(&files[i]);
        put_path(&mut out, a, files[i].clone());
    }
    assert(f.take(files@.len() as int) =~= f);
    out
}

/// `r` is the processor `p` at its new path, where it has one.
pub open spec fn is_moved(p: ProcItem, r: ProcItem, paths: Map<Seq<char>, Seq<char>>) -> bool {
    &&& r.name@ == p.name@
    &&& r.kind@ == p.kind@
    &&& r.hash@ == p.hash@
    &&& r.size == p.size
    &&& r.updated@ == p.updated@
    &&& r.path@ == if paths.dom().contains(p.path@) {
        paths[p.path@]
    } else {
        p.path@
    }
}

/// How many of the given processors have a new path.
pub open spec fn moved_count(
    keys: Seq<Seq<char>>,
    items: Map<Seq<char>, ProcItem>,
    paths: Map<Seq<char>, Seq<char>>,
) -> nat
    decreases keys.len(),
{
    if keys.len() == 0 {
        0
    } else {
        moved_count(keys.drop_last(), items, paths) + if paths.dom().contains(
            items[keys.last()].path@,
        ) {
            1nat
        } else {
            0
        }
    }
}

/// The processors at their new paths, and how many have one.
pub fn move_items(items: &StrMap<ProcItem>, paths: &StrMap<String>) -> (r: (
    StrMap<ProcItem>,
    usize,
))
    ensures
        r.0@.dom() == items@.dom(),
        forall|k: Seq<char>| #[trigger]
            items@.dom().contains(k) ==> is_moved(items@[k], r.0@[k], string_values(paths@)),
        r.1 == moved_count(items.keys(), items@, string_values(paths@)),
{
    let n: usize = items.len();
    let ghost keys = items.keys();
    let ghost new = string_values(paths@);
    let mut out: StrMap<ProcItem> = StrMap::new();
    let mut moved: usize = 0;
    for i in 0..n
        invariant
            n == keys.len(),
            keys == items.keys(),
            new == string_values(paths@),
            moved <= i,
            moved == moved_count(keys.take(i as int), items@, new),
            forall|k: Seq<char>| #[trigger]
                out@.dom().contains(k) == keys.take(i as int).contains(k),
            forall|k: Seq<char>| #[trigger]
                out@.dom().contains(k) ==> items@.dom().contains(k) && is_moved(
                    items@[k],
                    out@[k],
                    new,
                ),
    {
        let key = items.key_at(i).clone();
        let p = items.value_at(i);
        assert(new.dom().contains(p.path@) == paths@.dom().contains(p.path@));
        let path = match paths.get(&p.path) {
            Some(new_path) => {
                moved = moved + 1;
                new_path.clone()
            },
            None => p.path.clone(),
        };
        let item = ProcItem {
            name: p.name.clone(),
            kind: p.kind.clone(),
            hash: p.hash.clone(),
            path,
            size: p.size,
            updated: p.updated.clone(),
        };
        let ghost before = out@;
        out.insert(key, item);
        proof {
            let k0 = keys.take(i as int);
            let k1 = keys.take(i + 1);
            assert(k1 =~= k0.push(keys[i as int]));
            assert(k1.drop_last() =~= k0);
            assert forall|k: Seq<char>| #[trigger] out@.dom().contains(k) == k1.contains(k) by {
                if k0.contains(k) {
                    let j = k0.index_of(k);
                    assert(k1[j] == k);
                }
                if k1.contains(k) {
                    let j = k1.index_of(k);
                    if j < i {
                        assert(k0[j] == k);
                    }
                }
                assert(k1[i as int] == keys[i as int]);
                assert(before.dom().contains(k) == k0.contains(k));
            }
        }
    }
    proof {
        assert(keys.take(n as int) =~= keys);
        assert forall|k: Seq<char>| out@.dom().contains(k) == items@.dom().contains(k) by {
            assert(items@.dom().contains(k) == keys.contains(k));
        }
        assert(out@.dom() =~= items@.dom());
    }
    (out, moved)
}

// What earlier versions kept in files.

/// The hashes of extensions in the text of a file of an earlier version, where
/// it is an object of texts.
pub fn legacy_hashes_of(file: &str) -> (r: Option<StrMap<String>>)
    ensures
        json::opt_texts(r) == json::texts_in(json::json(file@)),
{
    json::text_map(&json::parse_json(file))
}

/// The hashes of extensions that are taken over from the files of an earlier
/// version: those of the first file that holds any.
pub fn legacy_hashes(files: Vec<Option<StrMap<String>>>) -> (r: Option<StrMap<String>>)
    ensures
        match r {
            Some(m) => exists|i: int|
                #![trigger files@[i]]
                0 <= i < files@.len() && files@[i] == Some(m) && m.keys().len() > 0 && (forall|
                    j: int,
                | 0 <= j < i ==> holds_nothing(#[trigger] files@[j])),
            None => forall|j: int| 0 <= j < files@.len() ==> holds_nothing(#[trigger] files@[j]),
        },
{
    let ghost all = files@;
    let mut rest = files;
    let n: usize = rest.len();
    for i in 0..n
        invariant
            n == all.len(),
            all == files@,
            rest@ == all.skip(i as int),
            forall|j: int| 0 <= j < i ==> holds_nothing(#[trigger] all[j]),
    {
        let file = rest.remove(0);
        assert(rest@ =~= all.skip(i + 1));
        assert(file == all[i as int]);
        if let Some(m) = file {
            let size: usize = m.len();
            if size > 0 {
                assert(all[i as int] == Some(m) && m.keys().len() > 0);
                return Some(m);
            }
        }
    }
    None
}

/// There is no file, or it holds no hashes.
pub open spec fn holds_nothing(file: Option<StrMap<String>>) -> bool {
    file matches Some(m) ==> m.keys().len() == 0
}

/// What is taken over from the manifest of an earlier version: its processors
/// where none are kept yet and it has some, and where the catalogue is stored
/// where that is not kept and it says so.
pub fn legacy_manifest(manifest: Manifest, items_kept: bool, discovery_kept: bool) -> (r: (
    Option<StrMap<ProcItem>>,
    Option<Discovery>,
))
    ensures
        match r.0 {
            Some(items) => !items_kept && manifest.items.keys().len() > 0
                && crate::state_db::same_items(items@, manifest.items@),
            None => items_kept || manifest.items.keys().len() == 0,
        },
        match (r.1, manifest.source) {
            (Some(d), Some(source)) => !discovery_kept && kept_mapping(d) == source@
                && d.discovered_at == manifest.source_discovered_at && d.kind_uuid_to_name
                == manifest.kind_uuid_to_name,
            (Some(_), None) => false,
            (None, source) => discovery_kept || source is None,
        },
{
    let items = if !items_kept && manifest.items.len() > 0 {
        Some(crate::state_db::items_to_save(&manifest.items))
    } else {
        None
    };
    if discovery_kept {
        return (items, None);
    }
    let discovery = match manifest.source {
        Some(source) => Some(
            Discovery {
                table: source.table,
                field_storage: source.field_storage,
                field_hash: source.field_hash,
                field_kind: source.field_kind,
                enum_table: source.enum_table,
                hash_is_binary: source.hash_is_binary,
                discovered_at: manifest.source_discovered_at,
                kind_uuid_to_name: manifest.kind_uuid_to_name,
            },
        ),
        None => None,
    };
    (items, discovery)
}

// The report of a whole export.

/// What the report says of the main configuration.
pub open spec fn base_report(ok: bool) -> Seq<char> {
    "  Основная конфигурация: "@ + if ok {
        "✓ Успешно"@
    } else {
        "✗ Ошибка"@
    }
}

/// What the report says of the extensions.
pub open spec fn extensions_report(m: StrMap<bool>) -> Seq<char> {
    if m@.dom().contains(LIST_FAILED@) {
        "  Расширения: ✗ не удалось получить список"@
    } else if m.keys().len() == 0 {
        "  Расширения: 0 выгружено (всё актуально или список пуст)"@
    } else {
        "  Расширения: "@ + text::dec(ok_count(m.keys(), m@)) + "/"@ + text::dec(m.keys().len())
            + " выгружено"@
    }
}

/// What the report says of the processors.
pub open spec fn processings_report(p: ProcessingsResult) -> Seq<char> {
    "  Доп. обработки: new="@ + text::dec(p.new as nat) + ", changed="@ + text::dec(
        p.changed as nat,
    ) + ", unchanged="@ + text::dec(p.unchanged as nat) + ", deleted="@ + text::dec(
        p.deleted as nat,
    ) + ", failed="@ + text::dec(p.failed@.len())
}

/// The lines of the report of a whole export.
pub open spec fn report_of(r: ExportResults) -> Seq<Seq<char>> {
    let base = match r.base {
        Some(ok) => seq![base_report(ok)],
        None => Seq::empty(),
    };
    let extensions = match r.extensions {
        Some(m) => seq![extensions_report(m)],
        None => Seq::empty(),
    };
    let processings = match r.processings {
        Some(p) => seq![processings_report(p)],
        None => Seq::empty(),
    };
    base + extensions + processings
}

/// The lines of the report of a whole export.
pub fn report_lines(results: &ExportResults) -> (r: Vec<String>)
    ensures
        text::views(r@) == report_of(*results),
{
    let mut lines: Vec<String> = Vec::new();
    if let Some(ok) = results.base {
        let mut s = "  Основная конфигурация: ".to_owned();
        if ok {
            s.append("✓ Успешно");
        } else {
            s.append("✗ Ошибка");
        }
        lines.push(s);
    }
    if let Some(ext) = &results.extensions {
        let n: usize = ext.len();
        if ext.contains_key(LIST_FAILED) {
            lines.push("  Расширения: ✗ не удалось получить список".to_owned());
        } else if n == 0 {
            lines.push("  Расширения: 0 выгружено (всё актуально или список пуст)".to_owned());
        } else {
            let mut s = "  Расширения: ".to_owned();
            let ok = text::dec_of(count_ok(ext) as u64);
            s.append(&ok);
            s.append("/");
            let all = text::dec_of(n as u64);
            s.append(&all);
            s.append(" выгружено");
            lines.push(s);
        }
    }
    if let Some(pr) = &results.processings {
        let mut s = "  Доп. обработки: new=".to_owned();
        let a = text::dec_of(pr.new as u64);
        s.append(&a);
        s.append(", changed=");
        let b = text::dec_of(pr.changed as u64);
        s.append(&b);
        s.append(", unchanged=");
        let c = text::dec_of(pr.unchanged as u64);
        s.append(&c);
        s.append(", deleted=");
        let d = text::dec_of(pr.deleted as u64);
        s.append(&d);
        s.append(", failed=");
        let e = text::dec_of(pr.failed.len() as u64);
        s.append(&e);
        lines.push(s);
    }
    assert(text::views(lines@) =~= report_of(*results));
    lines
}

// Laws of what is exported.

/// An export succeeds where no part of it failed: the main configuration, each
/// single extension, and the processors, unless some of them went well.
pub proof fn one_failure_fails_the_export(r: ExportResults)
    ensures
        succeeded(r) <==> {
            &&& r.base is None || r.base == Some(true)
            &&& (r.extensions matches Some(m) ==> (forall|k: Seq<char>| #[trigger]
                m@.dom().contains(k) ==> m@[k]))
            &&& (r.processings matches Some(p) ==> p.failed@.len() == 0 || p.new > 0 || p.changed
                > 0 || p.unchanged > 0)
        },
{
    if let Some(m) = r.extensions {
        assert(!any_failed(m@) <==> (forall|k: Seq<char>| #[trigger]
            m@.dom().contains(k) ==> m@[k]));
    }
    if let Some(ok) = r.base {
        if ok {
            assert(r.base == Some(true));
        } else {
            assert(r.base == Some(false));
        }
    }
    if let Some(p) = r.processings {
        assert(processings_failed(p) <==> !(p.failed@.len() == 0 || p.new > 0 || p.changed > 0
            || p.unchanged > 0));
    }
}

/// What went well is counted, one for one.
pub proof fn successes_are_counted(
    keys: Seq<Seq<char>>,
    more: Seq<char>,
    m: Map<Seq<char>, bool>,
)
    ensures
        ok_count(keys.push(more), m) == ok_count(keys, m) + if m[more] {
            1nat
        } else {
            0
        },
        ok_count(Seq::empty(), m) == 0,
{
    assert(keys.push(more).drop_last() =~= keys);
}

/// A summary says of each part that was exported how it went, in the order of the
/// export, and of no other.
#[verifier::rlimit(40)]
pub proof fn every_part_is_summed_up(r: ExportResults)
    ensures
        ({
            let parts = summary_parts(r);
            let lines = report_of(r);
            let b: int = if r.base is Some {
                1
            } else {
                0
            };
            let e: int = if r.extensions is Some {
                1
            } else {
                0
            };
            let p: int = if r.processings is Some {
                1
            } else {
                0
            };
            &&& parts.len() == b + e + p && lines.len() == b + e + p
            &&& r.base == Some(true) ==> parts[0] == "база: "@ + "✓"@ && lines[0]
                == "  Основная конфигурация: "@ + "✓ Успешно"@
            &&& r.base == Some(false) ==> parts[0] == "база: "@ + "✗"@ && lines[0]
                == "  Основная конфигурация: "@ + "✗ Ошибка"@
            &&& r.extensions matches Some(m) ==> if m@.dom().contains("<list-failed>"@) {
                parts[b] == "расширения: список не получен"@ && lines[b]
                    == "  Расширения: ✗ не удалось получить список"@
            } else {
                let done = text::dec(ok_count(m.keys(), m@)) + "/"@ + text::dec(m.keys().len());
                &&& parts[b] == "расширения: "@ + done
                &&& m.keys().len() > 0 ==> lines[b] == "  Расширения: "@ + done + " выгружено"@
            }
            &&& r.processings matches Some(q) ==> parts[b + e] == "допобработки: new="@ + text::dec(
                q.new as nat,
            ) + " changed="@ + text::dec(q.changed as nat) + " unchanged="@ + text::dec(
                q.unchanged as nat,
            ) + " deleted="@ + text::dec(q.deleted as nat) + " failed="@ + text::dec(q.failed@.len())
                && lines[b + e] == "  Доп. обработки: new="@ + text::dec(q.new as nat)
                + ", changed="@ + text::dec(q.changed as nat) + ", unchanged="@ + text::dec(
                q.unchanged as nat,
            ) + ", deleted="@ + text::dec(q.deleted as nat) + ", failed="@ + text::dec(
                q.failed@.len(),
            )
        }),
{
    if let Some(m) = r.extensions {
        let a = text::dec(ok_count(m.keys(), m@));
        let z = text::dec(m.keys().len());
        assert("расширения: "@ + a + "/"@ + z =~= "расширения: "@ + (a + "/"@ + z));
        assert("  Расширения: "@ + a + "/"@ + z + " выгружено"@ =~= "  Расширения: "@ + (a + "/"@ + z)
            + " выгружено"@);
    }
}

/// The binary copy is renewed where copies are kept, unless the export was no
/// full one, the configuration is known not to have changed and there is a copy.
pub proof fn copy_is_renewed_unless_it_is_current(
    save_artifacts: bool,
    config_changed: Option<bool>,
    full_rewrite: bool,
    copy_exists: bool,
)
    ensures
        needs_copy(save_artifacts, config_changed, full_rewrite, copy_exists) <==> save_artifacts
            && !(!full_rewrite && config_changed == Some(false) && copy_exists),
{
}

/// Changes alone are exported only where there is an export to compare with, and
/// not where only a full one is asked for.
pub proof fn changes_need_an_earlier_export(sync: bool, force: bool)
    ensures
        !effective_sync(sync, force, false),
        effective_sync(true, force, true),
        effective_sync(false, false, true),
        !effective_sync(false, true, true),
{
}

/// The words that ask for a full export may stand in either output.
#[verifier::rlimit(40)]
pub proof fn full_export_is_asked_for_in_words(r: CommandResult)
    ensures
        asks_for_full(r) <==> text::has(r.stdout@, "экспортировать конфигурацию полностью"@)
            || text::has(r.stderr@, "экспортировать конфигурацию полностью"@),
{
    let p = "экспортировать конфигурацию полностью"@;
    reveal_strlit("экспортировать конфигурацию полностью");
    reveal_strlit("\n");
    let a = r.stdout@;
    let b = r.stderr@;
    let s = a + "\n"@ + b;
    let n = p.len() as int;
    text::first_place_is_found(a, p);
    text::first_place_is_found(b, p);
    text::first_place_is_found(s, p);
    if text::has(a, p) {
        let k = text::find(a, p)->0;
        assert(s.subrange(k, k + n) =~= a.subrange(k, k + n));
    }
    if text::has(b, p) {
        let k = text::find(b, p)->0;
        let at = a.len() + 1 + k;
        assert(s.subrange(at, at + n) =~= b.subrange(k, k + n));
    }
    if text::has(s, p) {
        let k = text::find(s, p)->0;
        if k <= a.len() < k + n {
            assert(s.subrange(k, k + n)[a.len() - k] == s[a.len() as int]);
            assert(s[a.len() as int] == '\n');
            assert(forall|i: int| 0 <= i < p.len() ==> #[trigger] p[i] != '\n');
        } else if k < a.len() {
            assert(a.subrange(k, k + n) =~= s.subrange(k, k + n));
        } else {
            let at = k - a.len() - 1;
            assert(b.subrange(at, at + n) =~= s.subrange(k, k + n));
        }
    }
}

/// An export of the main configuration runs `ibcmd` as asked for and succeeds
/// where it does. An export of changes that is told that it must be a full one is
/// tried again as a full one, in an emptied directory, once; any other failure is
/// the failure of the export.
pub proof fn base_export_takes_its_course(
    sync: bool,
    force: bool,
    first: CommandResult,
    second: CommandResult,
)
    ensures
        base_next(BaseStage::Prepare, sync, force, BaseReply::Prepared(true)) == (
            BaseStage::Run,
            BaseAction::Run { sync, force },
        ),
        base_next(BaseStage::Run, sync, force, BaseReply::Ran(Some(first))) == if first.success {
            (BaseStage::Finished, BaseAction::Finish { success: true, full_rewrite: !sync })
        } else if sync && (text::has(first.stdout@, "экспортировать конфигурацию полностью"@)
            || text::has(first.stderr@, "экспортировать конфигурацию полностью"@)) {
            (BaseStage::RetryPrepare, BaseAction::Prepare { clean: true })
        } else {
            (BaseStage::Finished, BaseAction::Finish { success: false, full_rewrite: false })
        },
        base_next(BaseStage::RetryPrepare, sync, force, BaseReply::Prepared(true)) == (
            BaseStage::RetryRun,
            BaseAction::Run { sync: false, force: true },
        ),
        base_next(BaseStage::RetryRun, sync, force, BaseReply::Ran(Some(second))) == (
            BaseStage::Finished,
            BaseAction::Finish { success: second.success, full_rewrite: second.success },
        ),
        base_next(BaseStage::Prepare, sync, force, BaseReply::Prepared(false)).1
            == (BaseAction::Finish { success: false, full_rewrite: false }),
        base_next(BaseStage::RetryPrepare, sync, force, BaseReply::Prepared(false)).1
            == (BaseAction::Finish { success: false, full_rewrite: false }),
        base_next(BaseStage::Run, sync, force, BaseReply::Ran(None)).1
            == (BaseAction::Finish { success: false, full_rewrite: false }),
        base_next(BaseStage::RetryRun, sync, force, BaseReply::Ran(None)).1
            == (BaseAction::Finish { success: false, full_rewrite: false }),
{
    full_export_is_asked_for_in_words(first);
}

/// The lines of an extension in a list: its name, its hash, and an empty line.
pub open spec fn extension_lines(name: Seq<char>, hash: Seq<char>) -> Seq<LineView> {
    seq![
        LineView::Field { key: "name"@, value: name },
        LineView::Field { key: "hash-sum"@, value: hash },
        LineView::Blank,
    ]
}

/// The lines of extensions in a list.
pub open spec fn extensions_lines(v: Seq<(Seq<char>, Seq<char>)>) -> Seq<LineView>
    decreases v.len(),
{
    if v.len() == 0 {
        Seq::empty()
    } else {
        extension_lines(v[0].0, v[0].1) + extensions_lines(v.skip(1))
    }
}

/// A list of extensions is read as it was written: every extension with its own
/// name and hash, in their order, and no others.
pub proof fn listed_extensions_are_read(v: Seq<(Seq<char>, Seq<char>)>)
    requires
        forall|i: int| 0 <= i < v.len() ==> (#[trigger] v[i]).0.len() > 0,
    ensures
        listed(extensions_lines(v), None, Seq::empty()) == v,
    decreases v.len(),
{
    let lines = extensions_lines(v);
    let none = Seq::<char>::empty();
    if v.len() == 0 {
        assert(listed(lines, None, none) =~= v);
    } else {
        let (name, hash) = v[0];
        let rest = extensions_lines(v.skip(1));
        assert forall|i: int| 0 <= i < v.skip(1).len() implies (#[trigger] v.skip(1)[i]).0.len()
            > 0 by {
            assert(v[i + 1].0.len() > 0);
        }
        listed_extensions_are_read(v.skip(1));
        let l1 = lines.skip(1);
        let l2 = l1.skip(1);
        assert(lines[0] == (LineView::Field { key: "name"@, value: name }));
        assert(l1[0] == (LineView::Field { key: "hash-sum"@, value: hash }));
        assert(l2[0] == LineView::Blank);
        assert(l2.skip(1) =~= rest);
        lemma_keys_differ();
        if hash.len() == 0 {
            assert(hash =~= none);
        }
        assert(listed(l2, Some(name), hash) == seq![(name, hash)] + listed(rest, None, none));
        assert(listed(l1, Some(name), none) == listed(l2, Some(name), hash));
        assert(block_end(None, none) =~= Seq::empty());
        assert(listed(lines, None, none) =~= listed(l1, Some(name), none));
        assert(seq![(name, hash)] + v.skip(1) =~= v);
    }
}

proof fn lemma_keys_differ()
    ensures
        "name"@ != "hash-sum"@,
        "hash-sum"@ != "имя"@,
{
    reveal_strlit("name");
    reveal_strlit("hash-sum");
    reveal_strlit("имя");
    assert("hash-sum"@.len() == 8);
}

/// A list may name its fields in either language, and lines that say something
/// else, unknown fields among them, change nothing.
#[verifier::rlimit(40)]
pub proof fn other_lines_change_nothing(
    lines: Seq<LineView>,
    name: Option<Seq<char>>,
    hash: Seq<char>,
    key: Seq<char>,
    value: Seq<char>,
)
    ensures
        listed(seq![LineView::Other] + lines, name, hash) == listed(lines, name, hash),
        key != "name"@ && key != "имя"@ && key != "hash-sum"@ && key != "hash"@ && key
            != "контрольная-сумма"@ ==> listed(
            seq![LineView::Field { key, value }] + lines,
            name,
            hash,
        ) == listed(lines, name, hash),
        (key == "name"@ || key == "имя"@) && value.len() > 0 ==> listed(
            seq![LineView::Field { key, value }] + lines,
            None,
            hash,
        ) == listed(lines, Some(value), Seq::empty()),
        (key == "hash-sum"@ || key == "hash"@ || key == "контрольная-сумма"@) && value.len() > 0
            ==> listed(seq![LineView::Field { key, value }] + lines, name, hash) == listed(
            lines,
            name,
            value,
        ),
{
    let o = seq![LineView::Other] + lines;
    assert(o.skip(1) =~= lines);
    let f = seq![LineView::Field { key, value }] + lines;
    assert(f.skip(1) =~= lines);
    reveal_strlit("name");
    reveal_strlit("имя");
    reveal_strlit("hash-sum");
    reveal_strlit("hash");
    reveal_strlit("контрольная-сумма");
    assert("name"@[0] == 'n');
    assert("имя"@[0] == 'и');
    assert("hash-sum"@[0] == 'h');
    assert("hash"@[0] == 'h');
    assert("контрольная-сумма"@[0] == 'к');
    assert(listed(lines, Some(value), Seq::empty()) =~= Seq::<(Seq<char>, Seq<char>)>::empty()
        + listed(lines, Some(value), Seq::empty()));
}

/// A field stands in a line as its name, a colon and its value, which may be in
/// quotes; white space around each does not count, nor does the case of the name.
#[verifier::rlimit(40)]
pub proof fn written_field_is_read(key: Seq<char>, value: Seq<char>, quoted: bool)
    requires
        key.len() > 0,
        !key.contains(':'),
        !text::is_space(key[0]) && !text::is_space(key.last()),
        value.len() > 0,
        !text::is_space(value[0]) && !text::is_space(value.last()),
        value[0] != '"' && value.last() != '"',
    ensures
        ({
            let q: Seq<char> = if quoted {
                seq!['"']
            } else {
                Seq::empty()
            };
            let line = key + " "@ + ":"@ + " "@ + q + value + q;
            &&& raw_key(line) == key
            &&& line_of(line, text::lower(raw_key(line))) == (LineView::Field {
                key: text::lower(key),
                value,
            })
        }),
{
    let none = Seq::<char>::empty();
    let q: Seq<char> = if quoted {
        seq!['"']
    } else {
        none
    };
    let line = key + " "@ + ":"@ + " "@ + q + value + q;
    reveal_strlit(" ");
    reveal_strlit(":");
    reveal_strlit("\"");
    text::blanks_are_white_space(' ');
    text::blanks_are_white_space('"');
    let n = key.len() as int;
    assert(line[0] == key[0]);
    assert(line.last() == if quoted {
        '"'
    } else {
        value.last()
    });
    assert(none + line + none =~= line);
    text::white_space_around_is_trimmed(none, line, none);
    let head = key + " "@;
    let tail = " "@ + q + value + q;
    assert(line =~= head + ":"@ + tail);
    assert(!head.contains(':')) by {
        if head.contains(':') {
            let i = head.index_of(':');
            if i < n {
                assert(key[i] == ':');
                assert(key.contains(':'));
            }
        }
    }
    text::lemma_split_at_char(head, ":"@, tail);
    assert(none + key + " "@ =~= head);
    text::white_space_around_is_trimmed(none, key, " "@);
    let core = q + value + q;
    assert(" "@ + core + none =~= tail);
    text::white_space_around_is_trimmed(" "@, core, none);
    lemma_quotes(value, q);
    assert(none + value + none =~= value);
    text::white_space_around_is_trimmed(none, value, none);
}

proof fn lemma_quotes(value: Seq<char>, q: Seq<char>)
    requires
        value.len() > 0,
        value[0] != '"' && value.last() != '"',
        q == seq!['"'] || q.len() == 0,
    ensures
        text::trim_end_of(skip_quotes(q + value + q), "\""@) == value,
{
    reveal_strlit("\"");
    let s = q + value + q;
    if q.len() == 0 {
        assert(s =~= value);
        assert(skip_quotes(s) == s);
        assert(!"\""@.contains(value.last()));
    } else {
        let t = value + q;
        assert(s[0] == '"');
        assert(s.skip(1) =~= t);
        assert(t[0] == value[0]);
        assert(skip_quotes(t) == t);
        assert(skip_quotes(s) == t);
        assert(t.drop_last() =~= value);
        assert("\""@[0] == '"');
        assert("\""@.contains(t.last()));
        assert(!"\""@.contains(value.last()));
        assert(text::trim_end_of(value, "\""@) == value);
    }
}

/// Exactly the extensions that have no hash, are new or have another hash than
/// before are exported.
pub proof fn changed_extensions_are_exported(
    current: Seq<(Seq<char>, Seq<char>)>,
    last: Map<Seq<char>, Seq<char>>,
    name: Seq<char>,
)
    ensures
        changed_names(current, last).contains(name) <==> exists|i: int|
            0 <= i < current.len() && (#[trigger] current[i]).0 == name && (current[i].1.len() == 0
                || !last.dom().contains(name) || last[name] != current[i].1),
    decreases current.len(),
{
    if current.len() > 0 {
        let rest = current.drop_last();
        changed_extensions_are_exported(rest, last, name);
        let f0 = changed_names(rest, last);
        let f = changed_names(current, last);
        let n = current.len() - 1;
        if f0.contains(name) {
            let k = f0.index_of(name);
            assert(f[k] == name);
            let i = choose|i: int|
                0 <= i < rest.len() && (#[trigger] rest[i]).0 == name && (rest[i].1.len() == 0
                    || !last.dom().contains(name) || last[name] != rest[i].1);
            assert(current[i] == rest[i]);
        }
        if f.contains(name) && !f0.contains(name) {
            let k = f.index_of(name);
            if k < f0.len() {
                assert(f0[k] == name);
            }
            assert(current[n].0 == name);
        }
        if exists|i: int|
            0 <= i < current.len() && (#[trigger] current[i]).0 == name && (current[i].1.len() == 0
                || !last.dom().contains(name) || last[name] != current[i].1) {
            let i = choose|i: int|
                0 <= i < current.len() && (#[trigger] current[i]).0 == name && (current[i].1.len()
                    == 0 || !last.dom().contains(name) || last[name] != current[i].1);
            if i < n {
                assert(rest[i] == current[i]);
            } else {
                assert(f[f.len() - 1] == name);
            }
        }
    }
}

/// A full export of the extensions exports every one that is listed.
pub proof fn full_export_exports_every_extension(current: Seq<(Seq<char>, Seq<char>)>, i: int)
    requires
        0 <= i < current.len(),
    ensures
        all_names(current).len() == current.len(),
        all_names(current)[i] == current[i].0,
{
}

/// The hash of an extension is the last that is listed under its name.
pub proof fn last_hash_counts(
    current: Seq<(Seq<char>, Seq<char>)>,
    name: Seq<char>,
    hash: Seq<char>,
    other: Seq<char>,
)
    ensures
        hash_map(current.push((name, hash))).dom().contains(name),
        hash_map(current.push((name, hash)))[name] == hash,
        other != name ==> hash_map(current.push((name, hash))).dom().contains(other) == hash_map(
            current,
        ).dom().contains(other) && hash_map(current.push((name, hash)))[other] == hash_map(
            current,
        )[other],
{
    assert(current.push((name, hash)).drop_last() =~= current);
}

/// Where every export went well, the hashes of now are kept, all of them and no
/// others.
pub proof fn hashes_of_a_good_export_are_kept(
    now: Map<Seq<char>, Seq<char>>,
    results: Map<Seq<char>, bool>,
    last: Map<Seq<char>, Seq<char>>,
)
    requires
        forall|k: Seq<char>| results.dom().contains(k) ==> #[trigger] results[k],
    ensures
        kept_hashes(now, results, last) == now,
{
    assert(!any_failed(results));
    assert(kept_hashes(now, results, last) =~= now);
}

/// The extensions of the settings are exported where there are any, without a
/// hash; else those that `ibcmd` lists, where it could.
pub proof fn settings_come_before_the_list(config: AppConfig, ran: CommandResult, i: int)
    ensures
        config.extensions@.len() > 0 ==> extensions_of(config, None) is Some && extensions_of(
            config,
            Some(ran),
        ) == extensions_of(config, None) && extensions_of(config, None)->0.len()
            == config.extensions@.len() && (0 <= i < config.extensions@.len() ==> extensions_of(
            config,
            None,
        )->0[i].0 == config.extensions@[i]@ && extensions_of(config, None)->0[i].1.len() == 0),
        config.extensions@.len() == 0 ==> extensions_of(config, None) is None,
        config.extensions@.len() == 0 && !ran.success ==> extensions_of(config, Some(ran)) is None,
        config.extensions@.len() == 0 && ran.success ==> extensions_of(config, Some(ran)) == Some(
            listed(list_lines(ran.stdout@), None, Seq::empty()),
        ),
{
}

/// The parts that were asked for are exported, the main configuration before the
/// extensions and these before the processors, and no others.
pub proof fn parts_are_exported_as_asked_for(opts: ExportOptions)
    ensures
        ({
            let p = parts_of(opts);
            &&& p.contains(Part::Base) <==> opts.export_base
            &&& p.contains(Part::Extensions) <==> opts.export_extensions
            &&& p.contains(Part::Processings) <==> opts.export_processings
            &&& opts.export_base ==> p[0] == Part::Base
            &&& opts.export_processings ==> p.last() == Part::Processings
            &&& p.no_duplicates()
        }),
{
    let p = parts_of(opts);
    if opts.export_base {
        assert(p[0] == Part::Base);
    }
    if opts.export_processings {
        assert(p[p.len() - 1] == Part::Processings);
    }
    if opts.export_extensions {
        assert(p[if opts.export_base {
            1
        } else {
            0int
        }] == Part::Extensions);
    }
}

/// Names that were kept are used unless others are given or they are to be found
/// anew, and only where table, contents and hash are names of columns. Otherwise
/// the database is asked, or the service where only that may be.
pub proof fn kept_names_are_used(
    kept: MappingView,
    other: Option<MappingView>,
    mode: DiscoveryMode,
    rediscover: bool,
    c: AppConfig,
)
    ensures
        kept.table.len() > 0 && kept.table[0] == '_' && kept.field_storage.len() > 0
            && kept.field_storage[0] == '_' && kept.field_hash.len() > 0 && kept.field_hash[0] == '_'
            ==> first_step(None, false, Some(kept), mode, c) == MappingStepView::Use(kept),
        kept.table.len() == 0 || kept.table[0] != '_' || kept.field_storage.len() == 0
            || kept.field_storage[0] != '_' || kept.field_hash.len() == 0 || kept.field_hash[0]
            != '_' ==> first_step(None, false, Some(kept), mode, c) == first_step(
            None,
            false,
            None,
            mode,
            c,
        ),
        mode != DiscoveryMode::Mcp ==> first_step(None, true, other, mode, c)
            == MappingStepView::AskSql && first_step(None, rediscover, None, mode, c)
            == MappingStepView::AskSql,
        text::trim(c.mcp_url@).len() > 0 && text::trim(c.mcp_api_key@).len() > 0 ==> first_step(
            None,
            true,
            other,
            DiscoveryMode::Mcp,
            c,
        ) == MappingStepView::AskMcp,
        text::trim(c.mcp_url@).len() == 0 || text::trim(c.mcp_api_key@).len() == 0 ==> first_step(
            None,
            true,
            other,
            DiscoveryMode::Mcp,
            c,
        ) is Fail,
{
    reveal_strlit("_");
    assert forall|s: Seq<char>| #[trigger] text::starts(s, "_"@) == (s.len() > 0 && s[0] == '_') by {
        if s.len() > 0 {
            if s[0] == '_' {
                assert(s.take(1) =~= "_"@);
            }
            if text::starts(s, "_"@) {
                assert(s.take(1)[0] == s[0]);
            }
        }
    }
}

/// Where the database cannot say, the service is asked, if there is one and it
/// may be.
pub proof fn service_is_asked_after_the_database(mode: DiscoveryMode, e: ErrorView, c: AppConfig)
    ensures
        mode == DiscoveryMode::Auto && text::trim(c.mcp_url@).len() > 0 && text::trim(
            c.mcp_api_key@,
        ).len() > 0 ==> step_after_sql(mode, e, c) == MappingStepView::AskMcp,
        mode != DiscoveryMode::Auto ==> step_after_sql(mode, e, c) == MappingStepView::Fail(e),
        mode == DiscoveryMode::Auto && (text::trim(c.mcp_url@).len() == 0 || text::trim(
            c.mcp_api_key@,
        ).len() == 0) ==> step_after_sql(mode, e, c) is Fail,
{
}

/// What was kept of the names is what is used of them.
pub proof fn kept_names_keep_their_places(d: Discovery)
    ensures
        ({
            let m = kept_mapping(d);
            &&& m.table == d.table@ && m.field_storage == d.field_storage@
            &&& m.field_hash == d.field_hash@ && m.field_kind == d.field_kind@
            &&& m.enum_table == d.enum_table@ && m.hash_is_binary == d.hash_is_binary
        }),
{
}

/// Names that the database does not know are found anew, once; every other
/// failure ends the export, and an export without one is done.
pub proof fn stale_names_are_found_anew_once(e: Seq<char>)
    ensures
        ({
            let stale = text::has(e, "Invalid column name"@) || text::has(e, "Invalid object name"@)
                || text::has(e, "Недопустимое имя столбца"@) || text::has(
                e,
                "Недопустимое имя объекта"@,
            );
            &&& proc_next(ProcStage::Resolve, None) == (ProcStage::Export, ProcActionView::Export)
            &&& proc_next(ProcStage::Export, None) == (ProcStage::Finished, ProcActionView::Done)
            &&& stale ==> proc_next(ProcStage::Export, Some(e)) == (
                ProcStage::ResolveAgain,
                ProcActionView::Resolve { anew: true },
            )
            &&& !stale ==> proc_next(ProcStage::Export, Some(e)) == (
                ProcStage::Finished,
                ProcActionView::Failed { what: "<fatal>"@, why: e },
            )
            &&& proc_next(ProcStage::ResolveAgain, None) == (
                ProcStage::ExportAgain,
                ProcActionView::Export,
            )
            &&& proc_next(ProcStage::ExportAgain, None) == (
                ProcStage::Finished,
                ProcActionView::Done,
            )
            &&& proc_next(ProcStage::ExportAgain, Some(e)) == (
                ProcStage::Finished,
                ProcActionView::Failed { what: "<fatal>"@, why: e },
            )
            &&& proc_next(ProcStage::ResolveAgain, Some(e)) == (
                ProcStage::Finished,
                ProcActionView::Failed { what: "<fatal>"@, why: e },
            )
            &&& proc_next(ProcStage::Resolve, Some(e)) == (
                ProcStage::Finished,
                ProcActionView::Failed { what: "<mapping>"@, why: e },
            )
        }),
{
}

/// A processor is unpacked into an emptied and newly made directory; what was
/// begun is removed where reading or unpacking failed.
pub proof fn processor_is_unpacked_in_order(
    name: Seq<char>,
    ext: Seq<char>,
    target: Seq<char>,
    why: String,
)
    ensures
        unpack_next(name, ext, target, UnpackStage::Clean, UnpackReply::Done) == (
            UnpackStage::Create,
            UnpackActionView::Create,
        ),
        unpack_next(name, ext, target, UnpackStage::Create, UnpackReply::Done) == (
            UnpackStage::Read,
            UnpackActionView::Read,
        ),
        unpack_next(name, ext, target, UnpackStage::Read, UnpackReply::Done) == (
            UnpackStage::Unpack,
            UnpackActionView::Unpack,
        ),
        unpack_next(name, ext, target, UnpackStage::Unpack, UnpackReply::Done) == (
            UnpackStage::Finished,
            UnpackActionView::RemoveSource,
        ),
        unpack_next(name, ext, target, UnpackStage::Unpack, UnpackReply::Unsupported(why)).1
            == (UnpackActionView::Fail { message: "не поддерживается: "@ + why@, remove_target: true }),
        unpack_next(name, ext, target, UnpackStage::Unpack, UnpackReply::Failed(why)).1
            == (UnpackActionView::Fail { message: "ошибка разбора: "@ + why@, remove_target: true }),
        unpack_next(name, ext, target, UnpackStage::Read, UnpackReply::Failed(why)).1
            == (UnpackActionView::Fail {
            message: "не прочитать "@ + name + ext + ": "@ + why@,
            remove_target: true,
        }),
        unpack_next(name, ext, target, UnpackStage::Create, UnpackReply::Failed(why)).1
            == (UnpackActionView::Fail {
            message: "создание "@ + target + ": "@ + why@,
            remove_target: false,
        }),
        unpack_next(name, ext, target, UnpackStage::Clean, UnpackReply::Failed(why)).1
            == (UnpackActionView::Fail {
            message: "очистка "@ + target + ": "@ + why@,
            remove_target: false,
        }),
{
}

/// The path of every file that moved out of the directory of processors is the
/// name of the file there, and that of every processor that was unpacked the name
/// of its directory, whichever kind of file it had.
#[verifier::rlimit(40)]
pub proof fn moved_files_have_new_paths(
    dirs: Seq<Seq<char>>,
    files: Seq<Seq<char>>,
    i: int,
)
    ensures
        0 <= i < files.len() ==> new_paths(dirs, files).dom().contains("processings/"@ + files[i])
            && new_paths(dirs, files)["processings/"@ + files[i]] == files[i],
        files.len() == 0 && 0 <= i < dirs.len() ==> new_paths(dirs, files).dom().contains(
            "processings/"@ + dirs[i] + ".epf"@,
        ) && new_paths(dirs, files)["processings/"@ + dirs[i] + ".epf"@] == dirs[i] && new_paths(
            dirs,
            files,
        ).dom().contains("processings/"@ + dirs[i] + ".erf"@) && new_paths(
            dirs,
            files,
        )["processings/"@ + dirs[i] + ".erf"@] == dirs[i],
    decreases dirs.len() + files.len(),
{
    let dir = "processings/"@;
    if files.len() > 0 {
        if 0 <= i < files.len() - 1 {
            moved_files_have_new_paths(dirs, files.drop_last(), i);
            assert(files.drop_last()[i] == files[i]);
            lemma_same_tail(dir, files[i], files.last());
        }
    } else if dirs.len() > 0 {
        if 0 <= i < dirs.len() - 1 {
            moved_files_have_new_paths(dirs.drop_last(), files, i);
            assert(dirs.drop_last()[i] == dirs[i]);
        }
        if 0 <= i < dirs.len() {
            lemma_same_ends(dir, dirs[i], dirs.last());
            lemma_same_ends(dir, dirs.last(), dirs[i]);
            lemma_same_ends(dir, dirs[i], dirs[i]);
        }
    }
}

proof fn lemma_same_tail(a: Seq<char>, b: Seq<char>, c: Seq<char>)
    ensures
        a + b == a + c ==> b == c,
{
    let n = a.len() as int;
    assert((a + b).skip(n) =~= b);
    assert((a + c).skip(n) =~= c);
}

proof fn lemma_same_ends(a: Seq<char>, b: Seq<char>, c: Seq<char>)
    ensures
        a + b + ".epf"@ != a + c + ".erf"@,
        a + b + ".epf"@ == a + c + ".epf"@ ==> b == c,
        a + b + ".erf"@ == a + c + ".erf"@ ==> b == c,
{
    reveal_strlit(".epf");
    reveal_strlit(".erf");
    let x = a + b + ".epf"@;
    let y = a + c + ".erf"@;
    let n = a.len() as int;
    assert(x[x.len() - 2] == 'p');
    assert(y[y.len() - 2] == 'r');
    assert(x.subrange(n, x.len() - 4) =~= b);
    assert(y.subrange(n, y.len() - 4) =~= c);
    let z = a + c + ".epf"@;
    assert(z.subrange(n, z.len() - 4) =~= c);
    let w = a + b + ".erf"@;
    assert(w.subrange(n, w.len() - 4) =~= b);
}

/// What moves in the manifest is the path alone.
pub proof fn moving_changes_the_path_alone(
    p: ProcItem,
    r: ProcItem,
    paths: Map<Seq<char>, Seq<char>>,
)
    ensures
        is_moved(p, r, paths) <==> r.name@ == p.name@ && r.kind@ == p.kind@ && r.hash@ == p.hash@
            && r.size == p.size && r.updated@ == p.updated@ && (paths.dom().contains(p.path@)
            ==> r.path@ == paths[p.path@]) && (!paths.dom().contains(p.path@) ==> r.path@
            == p.path@),
{
}

/// The number of items that move is that of those whose path has a new one.
pub proof fn moved_items_are_counted(
    keys: Seq<Seq<char>>,
    more: Seq<char>,
    items: Map<Seq<char>, ProcItem>,
    paths: Map<Seq<char>, Seq<char>>,
)
    ensures
        moved_count(keys.push(more), items, paths) == moved_count(keys, items, paths)
            + if paths.dom().contains(items[more].path@) {
            1nat
        } else {
            0
        },
        moved_count(Seq::empty(), items, paths) == 0,
{
    assert(keys.push(more).drop_last() =~= keys);
}

/// An error about the service says whether there is a key, not which.
pub proof fn keys_are_not_shown(key: Seq<char>, other: Seq<char>, c: AppConfig)
    ensures
        key.len() > 0 ==> shown_key(key) == "<задан>"@,
        key.len() == 0 ==> shown_key(key) == "<пусто>"@,
        no_service_error(c) == ErrorView::CommandFailed(
            -1,
            "Запрошен --discovery=mcp, но HTTP-сервис не задан (mcpUrl='"@ + c.mcp_url@
                + "', mcpApiKey="@ + shown_key(c.mcp_api_key@) + ")."@,
        ),
        key.len() > 0 && other.len() > 0 ==> shown_key(key) == shown_key(other),
{
}

/// Names and pairs are taken as they are given.
pub proof fn pairs_are_taken_one_by_one(
    v: Seq<(String, String)>,
    i: int,
    m: StorageMapping,
    d: Discovery,
)
    ensures
        pair_views(v).len() == v.len(),
        0 <= i < v.len() ==> pair_views(v)[i] == (v[i].0@, v[i].1@),
        opt_mapping(Some(m)) == Some(m@),
        opt_mapping(None) is None,
        opt_kept(Some(d)) == Some(kept_mapping(d)),
        opt_kept(None) is None,
        name_or_default(None) == "default"@,
{
}

/// An incremental export plans exactly the extensions that have no hash, are new
/// or have another hash than before, and removes exactly those that are no longer
/// listed; a full one plans all and removes none.
pub proof fn plan_has_what_changed_and_what_is_gone(
    current: &Vec<(String, String)>,
    last: &StrMap<String>,
    incremental: bool,
    plan: ExtensionPlan,
    name: Seq<char>,
    i: int,
)
    requires
        call_ensures(plan_extensions, (current, last, incremental), plan),
    ensures
        incremental ==> (text::views(plan.to_export@).contains(name) <==> exists|k: int|
            0 <= k < current@.len() && (#[trigger] pair_views(current@)[k]).0 == name && (
            pair_views(current@)[k].1.len() == 0 || !last@.dom().contains(name) || last@[name]@
                != pair_views(current@)[k].1)),
        incremental ==> (text::views(plan.to_remove@).contains(name) <==> last.keys().contains(name)
            && !hash_map(pair_views(current@)).dom().contains(name)),
        !incremental ==> plan.to_remove@.len() == 0 && plan.to_export@.len() == current@.len() && (0
            <= i < current@.len() ==> plan.to_export@[i]@ == current@[i].0@),
{
    let pairs = pair_views(current@);
    changed_extensions_are_exported(pairs, string_values(last@), name);
    gone_extensions_are_removed(last.keys(), hash_map(pairs), Map::empty(), Map::empty(), name);
    if !incremental {
        assert(text::views(plan.to_export@).len() == plan.to_export@.len());
        if 0 <= i < current@.len() {
            assert(text::views(plan.to_export@)[i] == plan.to_export@[i]@);
            assert(pairs[i].0 == current@[i].0@);
        }
    }
}

/// An export of the main configuration begins with the directory, which is
/// emptied where it is there and the export is a full one.
pub proof fn full_export_begins_in_an_empty_directory(
    params: &IbcmdParams,
    dump_exists: bool,
    dir_exists: bool,
    r: (BaseExport, BaseAction),
)
    requires
        call_ensures(BaseExport::start, (params, dump_exists, dir_exists), r),
    ensures
        r.1 is Prepare,
        !dump_exists && dir_exists ==> r.1 == (BaseAction::Prepare { clean: true }),
        !dir_exists ==> r.1 == (BaseAction::Prepare { clean: false }),
        params.force && dir_exists ==> r.1 == (BaseAction::Prepare { clean: true }),
        !params.force && dump_exists && dir_exists ==> r.1 == (BaseAction::Prepare {
            clean: false,
        }),
        r.0.sync ==> dump_exists,
        r.0.force == params.force,
{
}

/// Processors are unpacked by one to four workers, no more than there are files.
pub proof fn workers_are_few(available: Option<usize>, total: usize, r: usize)
    requires
        call_ensures(worker_count, (available, total), r),
    ensures
        1 <= r <= 4,
        total >= 1 ==> r <= total,
        available matches Some(n) ==> (n >= 1 ==> r <= n),
        total >= 4 && (available is None || available->Some_0 >= 4) ==> r == 4,
{
}

/// A line of white space is blank and ends a block; a line without a colon says
/// nothing, and every other one is a field.
pub proof fn lines_are_told_apart(line: Seq<char>)
    ensures
        ({
            let l = line_of(line, text::lower(raw_key(line)));
            &&& text::trim(line).len() == 0 ==> l == LineView::Blank
            &&& text::trim(line).len() > 0 && !line.contains(':') ==> l == LineView::Other
            &&& text::trim(line).contains(':') ==> l is Field
        }),
{
    reveal_strlit(":");
    let t = text::trim(line);
    let (a, b) = text::only_white_space_is_trimmed(line);
    text::first_place_is_found(t, ":"@);
    if let Some(k) = text::find(t, ":"@) {
        assert(t.subrange(k, k + 1)[0] == t[k]);
        assert(t[k] == line[a + k]);
        assert(line.contains(':'));
    }
    if t.contains(':') {
        let k = t.index_of(':');
        assert(t.subrange(k, k + 1) =~= ":"@);
    }
}

/// The lines of a list are those of the text, in their order.
pub proof fn every_line_of_a_list_is_read(text: Seq<char>, i: int)
    requires
        0 <= i < text::lines(text).len(),
    ensures
        list_lines(text).len() == text::lines(text).len(),
        list_lines(text)[i] == line_of(
            text::lines(text)[i],
            text::lower(raw_key(text::lines(text)[i])),
        ),
{
}

} // verus!
