//! What the window shows and what follows from what is entered in it.

use vstd::prelude::*;

use crate::bases_config::{BaseEntry, ChangeDetection};
use crate::command_builder::{IbcmdDbAuth, IbcmdParams};
use crate::config::{AppConfig, AuthConfig, AuthType};
use crate::export::{DiscoveryMode, ExportOptions, ProcessingsCliParams};
use crate::git_push::GitAuth;
use crate::logging::LogLevel;
use crate::state_db::ExportLogRow;
use crate::text;

verus! {

// Line ends.

/// The items of the list of line ends. The last one leaves the setting of the
/// machine as it is.
pub const AUTOCRLF_ITEMS: [&'static str; 4] = ["false", "true", "input", "как на машине"];

/// The item of a setting; an unknown setting is shown as `false`.
pub open spec fn autocrlf_index(value: Seq<char>) -> usize {
    let v = text::trim(value);
    if v == "true"@ {
        1
    } else if v == "input"@ {
        2
    } else if v.len() == 0 {
        3
    } else {
        0
    }
}

/// The setting of an item; there is none behind the last.
pub open spec fn autocrlf_value(index: int) -> Seq<char> {
    if index == 1 {
        "true"@
    } else if index == 2 {
        "input"@
    } else if index == 3 {
        Seq::empty()
    } else {
        "false"@
    }
}

/// The item of a setting.
pub fn autocrlf_to_index(value: &str) -> (r: usize)
    ensures
        r == autocrlf_index(value@),
{
    let v = text::trimmed(value);
    if text::same(&v, "true") {
        1
    } else if text::same(&v, "input") {
        2
    } else if v.as_str().is_empty() {
        3
    } else {
        0
    }
}

/// The setting of an item.
pub fn autocrlf_from_index(idx: usize) -> (r: String)
    ensures
        r@ == autocrlf_value(idx as int),
{
    if idx == 1 {
        "true".to_owned()
    } else if idx == 2 {
        "input".to_owned()
    } else if idx == 3 {
        String::new()
    } else {
        "false".to_owned()
    }
}

// The form.

/// What is entered in the window.
#[derive(Debug, Clone)]
pub struct Form {
    pub server: String,
    pub server_1c: String,
    pub database: String,
    pub auth_os: bool,
    pub login: String,
    pub password: String,
    pub ibcmd_path: String,
    pub output_path: String,
    pub git_remote_url: String,
    pub export_base: bool,
    pub export_extensions: bool,
    pub export_processings: bool,
    pub rediscover: bool,
    pub save_artifacts: bool,
    pub base_incremental: bool,
    pub extensions_incremental: bool,
    pub processings_incremental: bool,
    /// The item of the list of database systems, if one is chosen.
    pub dbms: Option<String>,
    pub db_windows: bool,
    pub db_user: String,
    pub db_pwd: String,
    pub jobs: String,
    pub use_connection_string: bool,
    pub git_domain: bool,
    pub git_user: String,
    pub git_password: String,
    /// The item of the list of line ends, if one is chosen.
    pub autocrlf: Option<usize>,
    pub force_push: bool,
}

/// What belongs to a configuration and is not in the window.
#[derive(Debug, Clone)]
pub struct FormContext {
    pub extensions: Vec<String>,
    pub mcp_url: String,
    pub mcp_api_key: String,
    pub processings_meta_name: String,
}

/// A text that is not blank.
pub open spec fn filled(s: Seq<char>) -> Option<Seq<char>> {
    if text::trim(s).len() == 0 {
        None
    } else {
        Some(s)
    }
}

/// A text that is not blank: a blank field has no value.
pub fn opt_text(s: String) -> (r: Option<String>)
    ensures
        text::opt_view(r) == filled(s@),
{
    if text::trimmed(&s).as_str().is_empty() {
        None
    } else {
        Some(s)
    }
}

/// The digits of a number: what follows a plus sign, if there is one.
pub open spec fn unsigned_digits(s: Seq<char>) -> Seq<char> {
    if s.len() > 0 && s[0] == '+' {
        s.skip(1)
    } else {
        s
    }
}

/// The number that a text writes, where it is one that fits.
pub open spec fn number_of(s: Seq<char>) -> Option<u32> {
    let d = unsigned_digits(s);
    if d.len() > 0 && (forall|i: int| 0 <= i < d.len() ==> text::is_digit(#[trigger] d[i]))
        && text::dec_value(d) <= u32::MAX {
        Some(text::dec_value(d) as u32)
    } else {
        None
    }
}

/// The number that a text writes, where it is one that fits.
pub fn parse_number(s: &str) -> (r: Option<u32>)
    ensures
        r == number_of(s@),
{
    let v = text::chars_of(s);
    let n: usize = v.len();
    let from: usize = if n > 0 && v[0] == '+' {
        1
    } else {
        0
    };
    let d = &v[from..n];
    assert(d@ =~= unsigned_digits(s@));
    let m: usize = d.len();
    if m == 0 {
        return None;
    }
    for i in 0..m
        invariant
            m == d@.len(),
            d@ == unsigned_digits(s@),
            forall|k: int| 0 <= k < i ==> text::is_digit(#[trigger] d@[k]),
    {
        let c = d[i];
        if !('0' <= c && c <= '9') {
            assert(!text::is_digit(d@[i as int]));
            return None;
        }
    }
    text::parse_dec(d)
}

/// `r` is the form with the settings of a base.
pub open spec fn shows_base(r: Form, f: Form, b: BaseEntry) -> bool {
    &&& r.server@ == b.sql_server@
    &&& r.server_1c@ == b.server_1c@
    &&& r.database@ == b.sql_database@
    &&& !r.auth_os
    &&& r.login@ == b.login@
    &&& r.password@ == b.password@
    &&& r.ibcmd_path@ == b.ibcmd_path@
    &&& r.output_path@ == b.output_path@
    &&& r.git_remote_url@ == b.git_remote_url@
    &&& r.export_base == b.export_base
    &&& r.export_extensions == b.export_extensions
    &&& r.export_processings == b.export_processings
    &&& !r.rediscover
    &&& r.save_artifacts == b.save_artifacts
    &&& r.base_incremental == b.ibcmd_sync
    &&& r.extensions_incremental == b.ibcmd_incremental
    &&& r.processings_incremental == b.processings_incremental
    &&& r.dbms == f.dbms
    &&& r.db_windows == b.ibcmd_db_auth_windows
    &&& r.db_user@ == shown(b.db_user)
    &&& r.db_pwd@ == shown(b.db_pwd)
    &&& r.jobs@ == match b.ibcmd_jobs {
        Some(j) => text::dec(j as nat),
        None => f.jobs@,
    }
    &&& !r.use_connection_string
    &&& r.git_domain == (b.git_auth_type@ == "domain"@)
    &&& r.git_user@ == shown(b.git_user)
    &&& r.git_password@ == shown(b.git_password)
    &&& r.autocrlf == Some(autocrlf_index(b.git_autocrlf@))
    &&& !r.force_push
}

/// How a value that may be missing is shown.
pub open spec fn shown(o: Option<String>) -> Seq<char> {
    match o {
        Some(s) => s@,
        None => Seq::empty(),
    }
}

/// How a value that may be missing is shown.
fn show_opt(o: &Option<String>) -> (r: String)
    ensures
        r@ == shown(*o),
{
    match o {
        Some(s) => s.clone(),
        None => String::new(),
    }
}

/// The line end that is chosen; `false` where none is.
pub open spec fn chosen_autocrlf(f: Form) -> Seq<char> {
    match f.autocrlf {
        Some(i) => autocrlf_value(i as int),
        None => "false"@,
    }
}

/// `r` is the base with what is entered in the form.
pub open spec fn is_filled(r: BaseEntry, b: BaseEntry, f: Form) -> bool {
    &&& r.sql_server@ == f.server@
    &&& r.server_1c@ == f.server_1c@
    &&& r.sql_database@ == f.database@
    &&& r.login@ == f.login@
    &&& r.password@ == f.password@
    &&& r.ibcmd_path@ == f.ibcmd_path@
    &&& r.output_path@ == f.output_path@
    &&& r.git_remote_url@ == f.git_remote_url@
    &&& r.export_base == f.export_base
    &&& r.export_extensions == f.export_extensions
    &&& r.export_processings == f.export_processings
    &&& r.save_artifacts == f.save_artifacts
    &&& r.ibcmd_sync == f.base_incremental
    &&& r.ibcmd_incremental == f.extensions_incremental
    &&& r.processings_incremental == f.processings_incremental
    &&& r.ibcmd_db_auth_windows == f.db_windows
    &&& text::opt_view(r.db_user) == filled(f.db_user@)
    &&& text::opt_view(r.db_pwd) == filled(f.db_pwd@)
    &&& r.ibcmd_jobs == number_of(text::trim(f.jobs@))
    &&& r.git_auth_type@ == if f.git_domain {
        "domain"@
    } else {
        "password"@
    }
    &&& text::opt_view(r.git_user) == filled(f.git_user@)
    &&& text::opt_view(r.git_password) == filled(f.git_password@)
    &&& r.git_autocrlf@ == chosen_autocrlf(f)
    &&& r.alias == b.alias
    &&& r.change_detection == b.change_detection
    &&& r.mcp_url == b.mcp_url
    &&& r.mcp_api_key == b.mcp_api_key
    &&& r.git_gc_after_push == b.git_gc_after_push
    &&& r.git_gc_aggressive == b.git_gc_aggressive
}

impl Form {
    /// The form with the settings of a base.
    pub fn show_base(&self, b: &BaseEntry) -> (r: Form)
        ensures
            shows_base(r, *self, *b),
    {
        let jobs = match b.ibcmd_jobs {
            Some(j) => text::dec_of(j as u64),
            None => self.jobs.clone(),
        };
        let dbms = match &self.dbms {
            Some(d) => Some(d.clone()),
            None => None,
        };
        Form {
            server: b.sql_server.clone(),
            server_1c: b.server_1c.clone(),
            database: b.sql_database.clone(),
            auth_os: false,
            login: b.login.clone(),
            password: b.password.clone(),
            ibcmd_path: b.ibcmd_path.clone(),
            output_path: b.output_path.clone(),
            git_remote_url: b.git_remote_url.clone(),
            export_base: b.export_base,
            export_extensions: b.export_extensions,
            export_processings: b.export_processings,
            rediscover: false,
            save_artifacts: b.save_artifacts,
            base_incremental: b.ibcmd_sync,
            extensions_incremental: b.ibcmd_incremental,
            processings_incremental: b.processings_incremental,
            dbms,
            db_windows: b.ibcmd_db_auth_windows,
            db_user: show_opt(&b.db_user),
            db_pwd: show_opt(&b.db_pwd),
            jobs,
            use_connection_string: false,
            git_domain: text::same(&b.git_auth_type, "domain"),
            git_user: show_opt(&b.git_user),
            git_password: show_opt(&b.git_password),
            autocrlf: Some(autocrlf_to_index(&b.git_autocrlf)),
            force_push: false,
        }
    }

    /// The line end that is chosen.
    pub fn selected_autocrlf(&self) -> (r: String)
        ensures
            r@ == chosen_autocrlf(*self),
    {
        match self.autocrlf {
            Some(i) => autocrlf_from_index(i),
            None => autocrlf_from_index(0),
        }
    }

    /// Puts what is entered into a base; the rest of it stays.
    pub fn fill_base_from_form(&self, b: &mut BaseEntry)
        ensures
            is_filled(*final(b), *old(b), *self),
    {
        b.sql_server = self.server.clone();
        b.server_1c = self.server_1c.clone();
        b.sql_database = self.database.clone();
        b.login = self.login.clone();
        b.password = self.password.clone();
        b.ibcmd_path = self.ibcmd_path.clone();
        b.output_path = self.output_path.clone();
        b.git_remote_url = self.git_remote_url.clone();
        b.export_base = self.export_base;
        b.export_extensions = self.export_extensions;
        b.export_processings = self.export_processings;
        b.save_artifacts = self.save_artifacts;
        b.ibcmd_sync = self.base_incremental;
        b.ibcmd_incremental = self.extensions_incremental;
        b.processings_incremental = self.processings_incremental;
        b.ibcmd_db_auth_windows = self.db_windows;
        b.db_user = opt_text(self.db_user.clone());
        b.db_pwd = opt_text(self.db_pwd.clone());
        b.ibcmd_jobs = parse_number(&text::trimmed(&self.jobs));
        b.git_auth_type = if self.git_domain {
            "domain".to_owned()
        } else {
            "password".to_owned()
        };
        b.git_user = opt_text(self.git_user.clone());
        b.git_password = opt_text(self.git_password.clone());
        b.git_autocrlf = self.selected_autocrlf();
    }

    /// The configuration that is entered.
    pub fn build_config(&self, context: &FormContext, level: LogLevel) -> (r: AppConfig)
        ensures
            r.server@ == self.server@,
            r.server_1c@ == self.server_1c@,
            r.database@ == self.database@,
            r.sql_database@ == self.database@,
            r.authentication.auth_type == if self.auth_os {
                AuthType::Os
            } else {
                AuthType::Password
            },
            r.authentication.login@ == self.login@,
            r.authentication.password@ == self.password@,
            r.ibcmd_path@ == self.ibcmd_path@,
            r.mcp_url@ == context.mcp_url@,
            r.mcp_api_key@ == context.mcp_api_key@,
            r.processings_meta_name@ == context.processings_meta_name@,
            r.git_remote_url@ == self.git_remote_url@,
            r.git_autocrlf@ == chosen_autocrlf(*self),
            r.output_path@ == self.output_path@,
            r.log_level@ == crate::logging::level_name(level),
            r.save_artifacts == self.save_artifacts,
            text::views(r.extensions@) == text::views(context.extensions@),
    {
        let mut extensions: Vec<String> = Vec::new();
        let ghost all = text::views(context.extensions@);
        for i in 0..context.extensions.len()
            invariant
                all == text::views(context.extensions@),
                text::views(extensions@) == all.take(i as int),
        {
            let ghost before = extensions@;
            let one = context.extensions[i].clone();
            extensions.push(one);
            assert(text::views(extensions@) =~= text::views(before).push(one@));
            assert(all.take(i + 1) =~= all.take(i as int).push(all[i as int]));
        }
        assert(all.take(context.extensions@.len() as int) =~= all);
        AppConfig {
            server: self.server.clone(),
            server_1c: self.server_1c.clone(),
            database: self.database.clone(),
            sql_database: self.database.clone(),
            authentication: AuthConfig {
                auth_type: if self.auth_os {
                    AuthType::Os
                } else {
                    AuthType::Password
                },
                login: self.login.clone(),
                password: self.password.clone(),
            },
            ibcmd_path: self.ibcmd_path.clone(),
            mcp_url: context.mcp_url.clone(),
            mcp_api_key: context.mcp_api_key.clone(),
            processings_meta_name: context.processings_meta_name.clone(),
            git_remote_url: self.git_remote_url.clone(),
            git_autocrlf: self.selected_autocrlf(),
            output_path: self.output_path.clone(),
            log_level: level.as_str().to_owned(),
            save_artifacts: self.save_artifacts,
            extensions,
        }
    }

    /// The parameters of `ibcmd` that are entered.
    pub fn ibcmd_params(&self, ibcmd_path: String) -> (r: IbcmdParams)
        ensures
            r.ibcmd_path == ibcmd_path,
            r.dbms@ == match self.dbms {
                Some(d) => d@,
                None => "MSSQLServer"@,
            },
            r.db_auth == if self.db_windows {
                IbcmdDbAuth::Windows
            } else {
                IbcmdDbAuth::SqlLogin
            },
            text::opt_view(r.db_user) == nonempty(self.db_user@),
            text::opt_view(r.db_pwd) == nonempty(self.db_pwd@),
            r.use_connection_string == self.use_connection_string,
            r.jobs == match number_of(text::trim(self.jobs@)) {
                Some(n) => n,
                None => 8,
            },
            r.sync == self.base_incremental,
            r.force == !self.base_incremental,
            r.incremental_extensions == self.extensions_incremental,
    {
        let dbms = match &self.dbms {
            Some(d) => d.clone(),
            None => "MSSQLServer".to_owned(),
        };
        let jobs: u32 = match parse_number(&text::trimmed(&self.jobs)) {
            Some(n) => n,
            None => 8,
        };
        IbcmdParams {
            ibcmd_path,
            dbms,
            db_auth: if self.db_windows {
                IbcmdDbAuth::Windows
            } else {
                IbcmdDbAuth::SqlLogin
            },
            db_user: given(&self.db_user),
            db_pwd: given(&self.db_pwd),
            use_connection_string: self.use_connection_string,
            jobs,
            sync: self.base_incremental,
            force: !self.base_incremental,
            incremental_extensions: self.extensions_incremental,
        }
    }

    /// The export that is asked for.
    pub fn export_options(&self, config: &AppConfig, params: IbcmdParams) -> (r: ExportOptions)
        ensures
            r.export_base == self.export_base,
            r.export_extensions == self.export_extensions,
            r.export_processings == self.export_processings,
            r.save_artifacts == self.save_artifacts,
            r.config_changed is None,
            r.ibcmd_params == params,
            match r.processings_params {
                Some(p) => {
                    &&& self.export_processings
                    &&& p.sql_server@ == config.server@
                    &&& p.override_mapping is None
                    &&& p.rediscover == self.rediscover
                    &&& p.incremental == self.processings_incremental
                    &&& p.discovery == DiscoveryMode::Auto
                },
                None => !self.export_processings,
            },
    {
        let processings_params = if self.export_processings {
            Some(
                ProcessingsCliParams {
                    sql_server: config.server.clone(),
                    override_mapping: None,
                    rediscover: self.rediscover,
                    incremental: self.processings_incremental,
                    discovery: DiscoveryMode::Auto,
                },
            )
        } else {
            None
        };
        ExportOptions {
            export_base: self.export_base,
            export_extensions: self.export_extensions,
            export_processings: self.export_processings,
            save_artifacts: self.save_artifacts,
            config_changed: None,
            ibcmd_params: params,
            processings_params,
        }
    }

    /// How git authorises.
    pub fn git_auth(&self) -> (r: GitAuth)
        ensures
            match r {
                GitAuth::Domain => self.git_domain,
                GitAuth::UserPassword { user, password } => !self.git_domain && user@
                    == self.git_user@ && password@ == self.git_password@,
            },
    {
        if self.git_domain {
            GitAuth::Domain
        } else {
            GitAuth::UserPassword {
                user: self.git_user.clone(),
                password: self.git_password.clone(),
            }
        }
    }
}

/// A text that is not empty.
pub open spec fn nonempty(s: Seq<char>) -> Option<Seq<char>> {
    if s.len() == 0 {
        None
    } else {
        Some(s)
    }
}

/// A text that is not empty.
fn given(s: &str) -> (r: Option<String>)
    ensures
        text::opt_view(r) == nonempty(s@),
{
    if s.is_empty() {
        None
    } else {
        Some(s.to_owned())
    }
}

/// The name under which an export is logged and its state kept: the alias of
/// the chosen base, else that of the base with the output directory, else the
/// one derived from the directory.
pub fn choose_repo_id(chosen: Option<String>, by_path: Option<String>, derived: String) -> (r:
    String)
    ensures
        r@ == match (chosen, by_path) {
            (Some(a), _) => a@,
            (None, Some(a)) => a@,
            (None, None) => derived@,
        },
{
    match chosen {
        Some(a) => a,
        None => match by_path {
            Some(a) => a,
            None => derived,
        },
    }
}

/// How much is logged before settings are read: as the register of bases says
/// where there is one, else as the configuration does.
pub fn detect_log_level(register: &Option<String>, config: &Option<String>) -> (r: LogLevel)
    ensures
        r == match (*register, *config) {
            (Some(v), _) => crate::logging::level_of(v@),
            (None, Some(v)) => crate::logging::level_of(v@),
            (None, None) => LogLevel::Info,
        },
{
    match register {
        Some(v) => LogLevel::parse(v),
        None => match config {
            Some(v) => LogLevel::parse(v),
            None => LogLevel::Info,
        },
    }
}

// Which controls can be used.

/// What the use of the controls depends on.
#[derive(Debug, Clone, Copy, PartialEq, Eq, Structural)]
pub struct UiFlags {
    pub busy: bool,
    pub had_ops: bool,
    pub all_ok: bool,
    pub force: bool,
    pub auth_pwd: bool,
    pub db_sql: bool,
    pub git_pwd: bool,
    pub proc_checked: bool,
}

/// Which controls can be used.
#[derive(Debug, Clone, Copy, PartialEq, Eq, Structural)]
pub struct Enabled {
    pub start: bool,
    pub stop: bool,
    pub push: bool,
    pub force_push: bool,
    /// The buttons and lists that cannot be used during an operation.
    pub idle: bool,
    pub login: bool,
    pub db_login: bool,
    pub git_login: bool,
    pub rediscover: bool,
}

/// Which controls can be used.
pub open spec fn usable(f: UiFlags) -> Enabled {
    Enabled {
        start: !f.busy,
        stop: f.busy,
        push: !f.busy && f.had_ops && (f.all_ok || f.force),
        force_push: !f.busy && f.had_ops && !f.all_ok,
        idle: !f.busy,
        login: f.auth_pwd,
        db_login: f.db_sql,
        git_login: f.git_pwd,
        rediscover: f.proc_checked,
    }
}

impl UiFlags {
    /// Which controls can be used.
    pub fn enabled(&self) -> (r: Enabled)
        ensures
            r == usable(*self),
    {
        Enabled {
            start: !self.busy,
            stop: self.busy,
            push: !self.busy && self.had_ops && (self.all_ok || self.force),
            force_push: !self.busy && self.had_ops && !self.all_ok,
            idle: !self.busy,
            login: self.auth_pwd,
            db_login: self.db_sql,
            git_login: self.git_pwd,
            rediscover: self.proc_checked,
        }
    }
}

// Sizes.

/// The widths of the columns of the history.
pub const HIST_WIDTHS: [i32; 6] = [130, 90, 60, 65, 70, 320];

/// The height of the status line.
pub const STATUS_H: u32 = 50;

/// By how much the area of a tab is narrower than the tabs.
pub const TAB_CHROME_W: u32 = 11;

/// By how much the area of a tab is lower than the tabs.
pub const TAB_CHROME_H: u32 = 45;

/// A difference, or zero where it would be negative.
pub open spec fn minus(a: u32, b: u32) -> u32 {
    if a >= b {
        (a - b) as u32
    } else {
        0
    }
}

/// The sizes that follow from that of the window.
#[derive(Debug, Clone, Copy, PartialEq, Eq, Structural)]
pub struct WindowSizes {
    pub source_w: u32,
    pub tabs_w: u32,
    pub tabs_h: u32,
}

/// The sizes that follow from that of the window; none where it is too small.
pub fn window_sizes(w: u32, h: u32) -> (r: Option<WindowSizes>)
    ensures
        match r {
            Some(s) => w >= 300 && h >= 200 && s.source_w == minus(w, 300) && s.tabs_w == minus(
                w,
                10,
            ) && s.tabs_h == minus(h, 90),
            None => w < 300 || h < 200,
        },
{
    if w < 300 || h < 200 {
        return None;
    }
    Some(
        WindowSizes {
            source_w: w.saturating_sub(300),
            tabs_w: w.saturating_sub(10),
            tabs_h: h.saturating_sub(40 + STATUS_H),
        },
    )
}

/// The sizes that follow from that of the tabs.
#[derive(Debug, Clone, Copy, PartialEq, Eq, Structural)]
pub struct TabSizes {
    pub inner_w: u32,
    pub inner_h: u32,
    pub count_w: u32,
    /// The width of the last column of the history: what is left, but no less
    /// than at the beginning.
    pub last_column: i32,
}

/// The sizes that follow from that of the tabs.
pub fn tab_sizes(w: u32, h: u32) -> (r: TabSizes)
    requires
        w <= i32::MAX,
    ensures
        r.inner_w == minus(w, 31),
        r.inner_h == minus(h, 105),
        r.count_w == minus(r.inner_w, 170),
        r.last_column == if r.inner_w - 439 > 320 {
            r.inner_w - 439
        } else {
            320
        },
{
    let inner_w: u32 = w.saturating_sub(TAB_CHROME_W + 20);
    let inner_h: u32 = h.saturating_sub(TAB_CHROME_H + 60);
    let fixed: i32 = HIST_WIDTHS[0] + HIST_WIDTHS[1] + HIST_WIDTHS[2] + HIST_WIDTHS[3]
        + HIST_WIDTHS[4];
    let rest: i32 = inner_w as i32 - fixed - 24;
    let last_column: i32 = if rest > HIST_WIDTHS[5] {
        rest
    } else {
        HIST_WIDTHS[5]
    };
    TabSizes { inner_w, inner_h, count_w: inner_w.saturating_sub(170), last_column }
}

/// The sizes of the window with details: those of its text, and where its
/// buttons stand; none where it is too small.
pub fn detail_sizes(w: u32, h: u32) -> (r: Option<(u32, u32, i32)>)
    requires
        h <= i32::MAX,
    ensures
        match r {
            Some(s) => w >= 200 && h >= 150 && s.0 == minus(w, 25) && s.1 == minus(h, 70) && s.2
                == h - 50,
            None => w < 200 || h < 150,
        },
{
    if w < 200 || h < 150 {
        return None;
    }
    Some((w.saturating_sub(25), h.saturating_sub(70), h as i32 - 50))
}

// Texts.

/// The text with every line end turned into that of the window.
pub open spec fn crlf(s: Seq<char>) -> Seq<char> {
    text::replace(text::replace(s, "\r\n"@, "\n"@), "\n"@, "\r\n"@)
}

/// The text with every line end turned into that of the window.
pub fn to_crlf(s: &str) -> (r: String)
    ensures
        r@ == crlf(s@),
{
    proof {
        reveal_strlit("\r\n");
        reveal_strlit("\n");
    }
    let t = text::replaced(s, "\r\n", "\n");
    text::replaced(&t, "\n", "\r\n")
}

/// The text of the log as the window shows it.
pub fn log_view(log: &str) -> (r: String)
    ensures
        r@ == text::replace(log@, "\n"@, "\r\n"@),
{
    proof {
        reveal_strlit("\n");
    }
    text::replaced(log, "\n", "\r\n")
}

/// A number, if there is one, with what follows it.
pub open spec fn number_or(n: Option<u64>, unit: Seq<char>, none: Seq<char>) -> Seq<char> {
    match n {
        Some(x) => text::dec(x as nat) + unit,
        None => none,
    }
}

/// A text, if there is one.
pub open spec fn text_or(s: Option<String>, none: Seq<char>) -> Seq<char> {
    match s {
        Some(t) => t@,
        None => none,
    }
}

/// All that the log of exports says of an export.
pub open spec fn detail_of(row: ExportLogRow) -> Seq<char> {
    "Время:        "@ + row.finished_at@ + "\r\nБаза:         "@ + row.repo@
        + "\r\nСтатус:       "@ + row.status@ + "\r\nДлительность: "@ + number_or(
        row.duration_sec,
        " с"@,
        "—"@,
    ) + "\r\nСобытий:      "@ + number_or(row.events, ""@, "—"@) + "\r\n\r\nДетали:\r\n"@ + crlf(
        text_or(row.details, "—"@),
    ) + "\r\n\r\nОшибка:\r\n"@ + crlf(text_or(row.error, "—"@))
}

/// A number, if there is one, with what follows it.
fn show_number(n: &Option<u64>, unit: &str, none: &str) -> (r: String)
    ensures
        r@ == number_or(*n, unit@, none@),
{
    match n {
        Some(x) => {
            let mut s = text::dec_of(*x);
            s.append(unit);
            s
        },
        None => none.to_owned(),
    }
}

/// A text, if there is one.
fn show_text(s: &Option<String>, none: &str) -> (r: String)
    ensures
        r@ == text_or(*s, none@),
{
    match s {
        Some(t) => t.clone(),
        None => none.to_owned(),
    }
}

/// All that the log of exports says of an export.
pub fn history_detail(row: &ExportLogRow) -> (r: String)
    ensures
        r@ == detail_of(*row),
{
    let mut s = "Время:        ".to_owned();
    s.append(&row.finished_at);
    s.append("\r\nБаза:         ");
    s.append(&row.repo);
    s.append("\r\nСтатус:       ");
    s.append(&row.status);
    s.append("\r\nДлительность: ");
    let duration = show_number(&row.duration_sec, " с", "—");
    s.append(&duration);
    s.append("\r\nСобытий:      ");
    let events = show_number(&row.events, "", "—");
    s.append(&events);
    s.append("\r\n\r\nДетали:\r\n");
    let details = to_crlf(&show_text(&row.details, "—"));
    s.append(&details);
    s.append("\r\n\r\nОшибка:\r\n");
    let error = to_crlf(&show_text(&row.error, "—"));
    s.append(&error);
    s
}

/// A text in one line.
pub open spec fn one_line(s: Seq<char>) -> Seq<char> {
    s.map_values(
        |c: char|
            if c == '\r' || c == '\n' {
                ' '
            } else {
                c
            },
    )
}

/// A text in one line.
fn in_one_line(s: &str) -> (r: String)
    ensures
        r@ == one_line(s@),
{
    let v = text::chars_of(s);
    let mut out = String::new();
    for i in 0..v.len()
        invariant
            v@ == s@,
            out@ == one_line(s@).take(i as int),
    {
        let c = if v[i] == '\r' || v[i] == '\n' {
            ' '
        } else {
            v[i]
        };
        out.push(c);
        assert(one_line(s@).take(i + 1) =~= one_line(s@).take(i as int).push(c));
    }
    assert(one_line(s@).take(v@.len() as int) =~= one_line(s@));
    out
}

/// The row of an export in the history.
pub open spec fn row_of(row: ExportLogRow) -> Seq<Seq<char>> {
    seq![
        row.finished_at@,
        row.repo@,
        row.status@,
        number_or(row.duration_sec, ""@, ""@),
        number_or(row.events, ""@, ""@),
        one_line(
            match row.error {
                Some(e) => e@,
                None => text_or(row.details, ""@),
            },
        ),
    ]
}

/// The row of an export in the history: its error, or its details where there
/// is none, stand in one line.
pub fn history_row(row: &ExportLogRow) -> (r: Vec<String>)
    ensures
        text::views(r@) == row_of(*row),
{
    let detail = match &row.error {
        Some(e) => e.clone(),
        None => show_text(&row.details, ""),
    };
    let duration = show_number(&row.duration_sec, "", "");
    let events = show_number(&row.events, "", "");
    let line = in_one_line(&detail);
    text::list6(&row.finished_at, &row.repo, &row.status, &duration, &events, &line)
}

// Starting.

/// What a search for the register of bases found.
#[derive(Debug)]
pub struct BasesFound {
    /// The path of the register, where there is one that can be read.
    pub source: Option<String>,
    pub aliases: Vec<String>,
    /// What was tried, in order.
    pub diagnostics: Vec<String>,
}

/// What the window says at its start.
#[derive(Debug)]
pub struct Startup {
    /// The lines for the log.
    pub log: Vec<String>,
    /// The text of the log in the window.
    pub log_text: String,
    /// The line beside the list of bases.
    pub source_label: String,
    pub status: String,
}

/// What is said of a register that was read.
pub fn register_read(path: &str, bases: u64) -> (r: String)
    ensures
        r@ == "bases.json прочитан: "@ + path@ + " ("@ + text::dec(bases as nat) + " баз)"@,
{
    let mut s = "bases.json прочитан: ".to_owned();
    s.append(path);
    s.append(" (");
    let n = text::dec_of(bases);
    s.append(&n);
    s.append(" баз)");
    s
}

/// What is said of a register that could not be read.
pub fn register_unread(path: &str, error: &str) -> (r: String)
    ensures
        r@ == "файл "@ + path@ + " не прошёл парсинг: "@ + error@,
{
    let mut s = "файл ".to_owned();
    s.append(path);
    s.append(" не прошёл парсинг: ");
    s.append(error);
    s
}

/// What is said of a register that is not there.
pub fn register_missing(path: &str) -> (r: String)
    ensures
        r@ == "проверял "@ + path@ + " — нет такого файла"@,
{
    let mut s = "проверял ".to_owned();
    s.append(path);
    s.append(" — нет такого файла");
    s
}

/// The lines that tell of a register that could not be read.
pub open spec fn unread_lines(diagnostics: Seq<Seq<char>>) -> Seq<Seq<char>>
    decreases diagnostics.len(),
{
    if diagnostics.len() == 0 {
        Seq::empty()
    } else {
        let head = unread_lines(diagnostics.drop_last());
        if text::has(diagnostics.last(), "не прошёл парсинг"@) {
            head.push("GUI: bases.json не загружен — "@ + diagnostics.last())
        } else {
            head
        }
    }
}

/// The first lines for the log: the register that was read, or why none was.
pub open spec fn register_lines(
    source: Option<Seq<char>>,
    aliases: Seq<Seq<char>>,
    diagnostics: Seq<Seq<char>>,
) -> Seq<Seq<char>> {
    match source {
        Some(path) => seq![
            "GUI: bases.json прочитан: "@ + path + " ("@ + text::dec(aliases.len()) + " баз)"@,
        ],
        None => if unread_lines(diagnostics).len() == 0 {
            seq!["GUI: bases.json не найден"@]
        } else {
            unread_lines(diagnostics)
        },
    }
}

/// The text of the log in the window: what was tried, and the bases.
pub open spec fn init_text(diagnostics: Seq<Seq<char>>, aliases: Seq<Seq<char>>) -> Seq<char>
{
    tried_text(diagnostics) + if aliases.len() == 0 {
        Seq::empty()
    } else {
        "[init] Реестр баз ("@ + text::dec(aliases.len()) + " шт.): "@ + text::join(
            aliases,
            ", "@,
        ) + "\n"@
    }
}

/// What was tried, a line each.
pub open spec fn tried_text(diagnostics: Seq<Seq<char>>) -> Seq<char>
    decreases diagnostics.len(),
{
    if diagnostics.len() == 0 {
        Seq::empty()
    } else {
        tried_text(diagnostics.drop_last()) + ("[init] "@ + diagnostics.last() + "\n"@)
    }
}

/// The last line for the log: the bases, or that there are none.
pub open spec fn bases_line(aliases: Seq<Seq<char>>) -> Seq<char> {
    if aliases.len() == 0 {
        "GUI: реестр баз пуст — режим одиночной базы (config.json)"@
    } else {
        "GUI: реестр баз ("@ + text::dec(aliases.len()) + " шт.): "@ + text::join(aliases, ", "@)
    }
}

/// Appends the lines that tell of a register that could not be read.
fn push_unread(log: &mut Vec<String>, diagnostics: &Vec<String>)
    ensures
        text::views(final(log)@) == text::views(old(log)@) + unread_lines(
            text::views(diagnostics@),
        ),
{
    let ghost all = text::views(diagnostics@);
    let ghost start = text::views(log@);
    assert(start + unread_lines(all.take(0)) =~= start);
    for i in 0..diagnostics.len()
        invariant
            all == text::views(diagnostics@),
            text::views(log@) == start + unread_lines(all.take(i as int)),
    {
        assert(all.take(i + 1).drop_last() =~= all.take(i as int));
        assert(all[i as int] == diagnostics@[i as int]@);
        if text::contains(&diagnostics[i], "не прошёл парсинг") {
            let mut s = "GUI: bases.json не загружен — ".to_owned();
            s.append(&diagnostics[i]);
            let ghost before = text::views(log@);
            log.push(s);
            assert(text::views(log@) =~= before.push(s@));
            assert(before.push(s@) =~= start + unread_lines(all.take(i as int)).push(s@));
        }
    }
    assert(all.take(diagnostics@.len() as int) =~= all);
}

/// What the window says at its start, after a search for the register.
pub fn startup(found: &BasesFound) -> (r: Startup)
    ensures
        text::views(r.log@) == register_lines(
            text::opt_view(found.source),
            text::views(found.aliases@),
            text::views(found.diagnostics@),
        ).push(bases_line(text::views(found.aliases@))),
        r.log_text@ == init_text(text::views(found.diagnostics@), text::views(found.aliases@)),
        found.aliases@.len() == 0 ==> r.source_label@
            == "bases.json не найден — режим одиночной базы (config.json)"@ && r.status@
            == "Готово (bases.json не найден — режим одиночной базы)"@,
        found.aliases@.len() > 0 ==> r.source_label@ == "(из "@ + shown(found.source) + ")"@
            && r.status@ == "Готово (реестр баз: "@ + text::dec(found.aliases@.len()) + " шт.)"@,
{
    let n: usize = found.aliases.len();
    let count = text::dec_of(n as u64);
    let list = text::joined(&found.aliases, ", ");
    let ghost aliases = text::views(found.aliases@);
    let ghost tried = text::views(found.diagnostics@);
    assert(aliases.len() == n);
    let mut log: Vec<String> = Vec::new();
    match &found.source {
        Some(path) => {
            let mut s = "GUI: bases.json прочитан: ".to_owned();
            s.append(path);
            s.append(" (");
            s.append(&count);
            s.append(" баз)");
            log.push(s);
            assert(text::views(log@) =~= seq![s@]);
        },
        None => {
            push_unread(&mut log, &found.diagnostics);
            assert(text::views(log@) =~= unread_lines(tried));
            if log.len() == 0 {
                log.push("GUI: bases.json не найден".to_owned());
                assert(text::views(log@) =~= seq!["GUI: bases.json не найден"@]);
            }
        },
    }
    assert(text::views(log@) == register_lines(text::opt_view(found.source), aliases, tried));
    let mut log_text = String::new();
    for i in 0..found.diagnostics.len()
        invariant
            tried == text::views(found.diagnostics@),
            log_text@ == tried_text(tried.take(i as int)),
    {
        assert(tried.take(i + 1).drop_last() =~= tried.take(i as int));
        assert(tried[i as int] == found.diagnostics@[i as int]@);
        let mut s = "[init] ".to_owned();
        s.append(&found.diagnostics[i]);
        s.append("\n");
        log_text.append(&s);
    }
    assert(tried.take(found.diagnostics@.len() as int) =~= tried);
    let ghost before = text::views(log@);
    if n == 0 {
        assert(log_text@ + Seq::<char>::empty() =~= log_text@);
        let line = "GUI: реестр баз пуст — режим одиночной базы (config.json)".to_owned();
        log.push(line);
        assert(text::views(log@) =~= before.push(line@));
        return Startup {
            log,
            log_text,
            source_label: "bases.json не найден — режим одиночной базы (config.json)".to_owned(),
            status: "Готово (bases.json не найден — режим одиночной базы)".to_owned(),
        };
    }
    let mut s = "[init] Реестр баз (".to_owned();
    s.append(&count);
    s.append(" шт.): ");
    s.append(&list);
    s.append("\n");
    log_text.append(&s);
    let mut line = "GUI: реестр баз (".to_owned();
    line.append(&count);
    line.append(" шт.): ");
    line.append(&list);
    log.push(line);
    assert(text::views(log@) =~= before.push(line@));
    let mut source_label = "(из ".to_owned();
    let source = show_opt(&found.source);
    source_label.append(&source);
    source_label.append(")");
    let mut status = "Готово (реестр баз: ".to_owned();
    status.append(&count);
    status.append(" шт.)");
    Startup { log, log_text, source_label, status }
}

// Saving.

/// The place of the first base with an alias.
pub open spec fn base_at(bases: Seq<BaseEntry>, alias: Seq<char>, i: int) -> bool {
    0 <= i < bases.len() && bases[i].alias@ == alias && forall|j: int|
        0 <= j < i ==> (#[trigger] bases[j]).alias@ != alias
}

/// Puts what is entered into the first base with an alias; the other bases
/// stay. Tells whether there is such a base.
pub fn save_form(bases: &mut Vec<BaseEntry>, alias: &str, form: &Form) -> (r: bool)
    ensures
        final(bases)@.len() == old(bases)@.len(),
        r == exists|i: int| #[trigger] base_at(old(bases)@, alias@, i),
        forall|i: int|
            0 <= i < old(bases)@.len() ==> if base_at(old(bases)@, alias@, i) {
                is_filled(#[trigger] final(bases)@[i], old(bases)@[i], *form)
            } else {
                final(bases)@[i] == old(bases)@[i]
            },
{
    let ghost before = bases@;
    let n: usize = bases.len();
    for i in 0..n
        invariant
            n == before.len(),
            bases@ == before,
            before == old(bases)@,
            forall|j: int| 0 <= j < i ==> (#[trigger] before[j]).alias@ != alias@,
    {
        if text::same(&bases[i].alias, alias) {
            let mut b = bases.remove(i);
            form.fill_base_from_form(&mut b);
            bases.insert(i, b);
            proof {
                assert(base_at(before, alias@, i as int));
                assert(bases@ =~= before.update(i as int, b));
            }
            return true;
        }
    }
    false
}

// Laws.

/// The line ends that the list offers are read as they are written.
pub proof fn line_ends_are_kept(index: usize)
    requires
        index < 4,
    ensures
        autocrlf_index(autocrlf_value(index as int)) == index,
{
    reveal_strlit("true");
    reveal_strlit("input");
    reveal_strlit("false");
    text::lemma_trim_id("true"@);
    text::lemma_trim_id("input"@);
    text::lemma_trim_id("false"@);
    if index == 0 {
        assert("false"@.len() != "true"@.len());
        assert("false"@[0] == 'f' && "input"@[0] == 'i');
    }
    if index == 2 {
        assert("input"@.len() != "true"@.len());
    }
}

proof fn lemma_dec(n: nat)
    ensures
        text::dec(n).len() > 0,
        text::dec_value(text::dec(n)) == n,
        forall|i: int| 0 <= i < text::dec(n).len() ==> text::is_digit(#[trigger] text::dec(n)[i]),
    decreases n,
{
    if n >= 10 {
        lemma_dec(n / 10);
        let d = text::dec(n / 10);
        let r = text::dec(n);
        assert(r.drop_last() =~= d);
        assert(r.last() == text::digit(n % 10));
        assert forall|i: int| 0 <= i < r.len() implies text::is_digit(#[trigger] r[i]) by {
            if i < d.len() {
                assert(r[i] == d[i]);
            }
        }
    } else {
        assert(text::dec(n).drop_last() =~= Seq::empty());
        assert(text::dec_value(Seq::empty()) == 0);
    }
}

/// A base that is shown and saved without a change stays as it is, where it
/// holds what the window can show: a number of threads, one of the two ways to
/// authorise, one of the line ends, and no blank login or password.
pub proof fn shown_base_is_saved(f: Form, g: Form, b: BaseEntry, r: BaseEntry)
    requires
        shows_base(g, f, b),
        is_filled(r, b, g),
        b.ibcmd_jobs is Some,
        b.git_auth_type@ == "domain"@ || b.git_auth_type@ == "password"@,
        b.git_autocrlf@ == "false"@ || b.git_autocrlf@ == "true"@ || b.git_autocrlf@ == "input"@
            || b.git_autocrlf@.len() == 0,
        b.db_user matches Some(s) ==> filled(s@) is Some,
        b.db_pwd matches Some(s) ==> filled(s@) is Some,
        b.git_user matches Some(s) ==> filled(s@) is Some,
        b.git_password matches Some(s) ==> filled(s@) is Some,
    ensures
        r.sql_server@ == b.sql_server@,
        r.server_1c@ == b.server_1c@,
        r.sql_database@ == b.sql_database@,
        r.login@ == b.login@,
        r.password@ == b.password@,
        r.ibcmd_path@ == b.ibcmd_path@,
        r.output_path@ == b.output_path@,
        r.git_remote_url@ == b.git_remote_url@,
        r.export_base == b.export_base,
        r.export_extensions == b.export_extensions,
        r.export_processings == b.export_processings,
        r.save_artifacts == b.save_artifacts,
        r.ibcmd_sync == b.ibcmd_sync,
        r.ibcmd_incremental == b.ibcmd_incremental,
        r.processings_incremental == b.processings_incremental,
        r.ibcmd_db_auth_windows == b.ibcmd_db_auth_windows,
        text::opt_view(r.db_user) == text::opt_view(b.db_user),
        text::opt_view(r.db_pwd) == text::opt_view(b.db_pwd),
        r.ibcmd_jobs == b.ibcmd_jobs,
        r.git_auth_type@ == b.git_auth_type@,
        text::opt_view(r.git_user) == text::opt_view(b.git_user),
        text::opt_view(r.git_password) == text::opt_view(b.git_password),
        r.git_autocrlf@ == b.git_autocrlf@,
{
    let n = b.ibcmd_jobs->0 as nat;
    let d = text::dec(n);
    lemma_dec(n);
    assert(text::is_digit(d[0]));
    assert(text::is_digit(d[d.len() - 1]));
    text::lemma_trim_id(d);
    assert(number_of(d) == b.ibcmd_jobs);
    reveal_strlit("domain");
    reveal_strlit("password");
    assert("domain"@.len() != "password"@.len());
    reveal_strlit("true");
    reveal_strlit("input");
    reveal_strlit("false");
    text::lemma_trim_id("true"@);
    text::lemma_trim_id("input"@);
    text::lemma_trim_id("false"@);
    assert("false"@[0] == 'f' && "input"@[0] == 'i');
    assert("false"@.len() != "true"@.len());
    assert("input"@.len() != "true"@.len());
    if b.git_autocrlf@.len() == 0 {
        assert(b.git_autocrlf@ =~= Seq::empty());
        assert(text::trim(b.git_autocrlf@).len() == 0);
    }
    assert(text::trim(Seq::<char>::empty()).len() == 0);
}

/// An operation can be started exactly when none can be stopped; a push needs
/// an export before it, and one that failed has to be pushed on purpose.
pub proof fn push_needs_an_export(f: UiFlags)
    ensures
        usable(f).start != usable(f).stop,
        usable(f).push ==> usable(f).start && f.had_ops,
        usable(f).push && !f.all_ok ==> f.force && usable(f).force_push,
{
}

/// The window shows every setting of a base in its own place.
pub proof fn window_shows_the_base(r: Form, f: Form, b: BaseEntry)
    requires
        shows_base(r, f, b),
    ensures
        r.server@ == b.sql_server@ && r.server_1c@ == b.server_1c@ && r.database@
            == b.sql_database@,
        r.login@ == b.login@ && r.password@ == b.password@,
        r.ibcmd_path@ == b.ibcmd_path@ && r.output_path@ == b.output_path@ && r.git_remote_url@
            == b.git_remote_url@,
        r.export_base == b.export_base && r.export_extensions == b.export_extensions
            && r.export_processings == b.export_processings,
        r.save_artifacts == b.save_artifacts && r.base_incremental == b.ibcmd_sync
            && r.extensions_incremental == b.ibcmd_incremental && r.processings_incremental
            == b.processings_incremental,
        r.db_windows == b.ibcmd_db_auth_windows,
        b.db_user matches Some(s) ==> r.db_user@ == s@,
        b.db_user is None ==> r.db_user@.len() == 0,
        b.db_pwd matches Some(s) ==> r.db_pwd@ == s@,
        b.db_pwd is None ==> r.db_pwd@.len() == 0,
        b.git_user matches Some(s) ==> r.git_user@ == s@,
        b.git_user is None ==> r.git_user@.len() == 0,
        b.git_password matches Some(s) ==> r.git_password@ == s@,
        b.git_password is None ==> r.git_password@.len() == 0,
        b.ibcmd_jobs matches Some(j) ==> r.jobs@ == text::dec(j as nat),
        b.ibcmd_jobs is None ==> r.jobs@ == f.jobs@,
        r.git_domain <==> b.git_auth_type@ == "domain"@,
        !r.auth_os && !r.rediscover && !r.use_connection_string && !r.force_push,
        r.dbms == f.dbms,
{
}

/// A base takes every setting of the window from its own place; what the window
/// does not show stays.
pub proof fn base_takes_from_the_window(r: BaseEntry, b: BaseEntry, f: Form)
    requires
        is_filled(r, b, f),
    ensures
        r.sql_server@ == f.server@ && r.server_1c@ == f.server_1c@ && r.sql_database@
            == f.database@,
        r.login@ == f.login@ && r.password@ == f.password@,
        r.ibcmd_path@ == f.ibcmd_path@ && r.output_path@ == f.output_path@ && r.git_remote_url@
            == f.git_remote_url@,
        r.export_base == f.export_base && r.export_extensions == f.export_extensions
            && r.export_processings == f.export_processings,
        r.save_artifacts == f.save_artifacts && r.ibcmd_sync == f.base_incremental
            && r.ibcmd_incremental == f.extensions_incremental && r.processings_incremental
            == f.processings_incremental,
        r.ibcmd_db_auth_windows == f.db_windows,
        text::trim(f.db_user@).len() > 0 ==> r.db_user is Some && r.db_user->Some_0@ == f.db_user@,
        text::trim(f.db_user@).len() == 0 ==> r.db_user is None,
        text::trim(f.db_pwd@).len() > 0 ==> r.db_pwd is Some && r.db_pwd->Some_0@ == f.db_pwd@,
        text::trim(f.db_pwd@).len() == 0 ==> r.db_pwd is None,
        text::trim(f.git_user@).len() > 0 ==> r.git_user is Some && r.git_user->Some_0@
            == f.git_user@,
        text::trim(f.git_user@).len() == 0 ==> r.git_user is None,
        text::trim(f.git_password@).len() > 0 ==> r.git_password is Some
            && r.git_password->Some_0@ == f.git_password@,
        text::trim(f.git_password@).len() == 0 ==> r.git_password is None,
        f.git_domain ==> r.git_auth_type@ == "domain"@,
        !f.git_domain ==> r.git_auth_type@ == "password"@,
        f.autocrlf == Some(1usize) ==> r.git_autocrlf@ == "true"@,
        f.autocrlf == Some(2usize) ==> r.git_autocrlf@ == "input"@,
        f.autocrlf == Some(3usize) ==> r.git_autocrlf@.len() == 0,
        f.autocrlf is None || f.autocrlf == Some(0usize) ==> r.git_autocrlf@ == "false"@,
        r.alias == b.alias && r.change_detection == b.change_detection && r.mcp_url == b.mcp_url
            && r.mcp_api_key == b.mcp_api_key && r.git_gc_after_push == b.git_gc_after_push
            && r.git_gc_aggressive == b.git_gc_aggressive,
{
}

/// A number in decimal notation is read as that number, with or without a sign;
/// anything else, or one that is too great, is no number.
#[verifier::rlimit(40)]
pub proof fn written_number_is_read(n: u32, s: Seq<char>, i: int)
    ensures
        number_of(text::dec(n as nat)) == Some(n),
        number_of(seq!['+'] + text::dec(n as nat)) == Some(n),
        s.len() == 0 ==> number_of(s) is None,
        0 <= i < s.len() && !('0' <= s[i] <= '9') && (i > 0 || s[0] != '+') ==> number_of(s)
            is None,
{
    text::decimal_notation_is_read(n as nat);
    let d = text::dec(n as nat);
    assert(d.len() > 0);
    assert(text::is_digit(d[0]));
    let p = seq!['+'] + d;
    assert(p.skip(1) =~= d);
    if 0 <= i < s.len() && !('0' <= s[i] <= '9') && (i > 0 || s[0] != '+') {
        let u = unsigned_digits(s);
        if s[0] == '+' {
            assert(u[i - 1] == s[i]);
            assert(!text::is_digit(u[i - 1]));
        } else {
            assert(!text::is_digit(u[i]));
        }
    }
}

/// What can be done depends on what is under way and what went before: nothing
/// else is started meanwhile, and a push follows an export that went well, or one
/// that is pushed on purpose.
pub proof fn buttons_follow_the_state(f: UiFlags)
    ensures
        ({
            let e = usable(f);
            &&& e.start == !f.busy && e.idle == !f.busy && e.stop == f.busy
            &&& e.push <==> !f.busy && f.had_ops && (f.all_ok || f.force)
            &&& e.force_push <==> !f.busy && f.had_ops && !f.all_ok
            &&& e.login == f.auth_pwd && e.db_login == f.db_sql && e.git_login == f.git_pwd
            &&& e.rediscover == f.proc_checked
        }),
{
}

/// A difference of sizes is never negative.
pub proof fn sizes_are_never_negative(a: u32, b: u32)
    ensures
        a >= b ==> minus(a, b) == a - b,
        a < b ==> minus(a, b) == 0,
{
}

/// A record of the journal is shown field by field; what is missing is shown as a
/// dash.
#[verifier::rlimit(40)]
pub proof fn record_is_shown_in_full(row: ExportLogRow)
    ensures
        ({
            let duration = match row.duration_sec {
                Some(n) => text::dec(n as nat) + " с"@,
                None => "—"@,
            };
            let events = match row.events {
                Some(n) => text::dec(n as nat) + ""@,
                None => "—"@,
            };
            let details = match row.details {
                Some(s) => s@,
                None => "—"@,
            };
            let error = match row.error {
                Some(s) => s@,
                None => "—"@,
            };
            detail_of(row) == "Время:        "@ + row.finished_at@ + "\r\nБаза:         "@
                + row.repo@ + "\r\nСтатус:       "@ + row.status@ + "\r\nДлительность: "@
                + duration + "\r\nСобытий:      "@ + events + "\r\n\r\nДетали:\r\n"@ + crlf(details)
                + "\r\n\r\nОшибка:\r\n"@ + crlf(error)
        }),
        ({
            let v = row_of(row);
            &&& v.len() == 6
            &&& v[0] == row.finished_at@ && v[1] == row.repo@ && v[2] == row.status@
            &&& row.duration_sec matches Some(n) ==> v[3] == text::dec(n as nat) + ""@
            &&& row.events matches Some(n) ==> v[4] == text::dec(n as nat) + ""@
            &&& row.error matches Some(e) ==> v[5] == one_line(e@)
            &&& row.error is None && row.details is Some ==> v[5] == one_line(row.details->Some_0@)
        }),
{
}

/// A text on one line is as long as it was, with blanks for its line ends.
pub proof fn line_ends_become_blanks(s: Seq<char>, i: int)
    requires
        0 <= i < s.len(),
    ensures
        one_line(s).len() == s.len(),
        s[i] == '\r' || s[i] == '\n' ==> one_line(s)[i] == ' ',
        s[i] != '\r' && s[i] != '\n' ==> one_line(s)[i] == s[i],
{
}

/// The registers that could not be read are told, each with its reason; where one
/// was read, its place and the number of its bases.
pub proof fn unread_registers_are_told(
    diagnostics: Seq<Seq<char>>,
    more: Seq<char>,
    path: Seq<char>,
    aliases: Seq<Seq<char>>,
)
    ensures
        unread_lines(diagnostics.push(more)) == if text::has(more, "не прошёл парсинг"@) {
            unread_lines(diagnostics).push("GUI: bases.json не загружен — "@ + more)
        } else {
            unread_lines(diagnostics)
        },
        unread_lines(Seq::empty()).len() == 0,
        register_lines(Some(path), aliases, diagnostics) == seq![
            "GUI: bases.json прочитан: "@ + path + " ("@ + text::dec(aliases.len()) + " баз)"@,
        ],
        unread_lines(diagnostics).len() > 0 ==> register_lines(None, aliases, diagnostics)
            == unread_lines(diagnostics),
        unread_lines(diagnostics).len() == 0 ==> register_lines(None, aliases, diagnostics) == seq![
            "GUI: bases.json не найден"@,
        ],
        tried_text(diagnostics.push(more)) == tried_text(diagnostics) + ("[init] "@ + more + "\n"@),
        aliases.len() == 0 ==> bases_line(aliases)
            == "GUI: реестр баз пуст — режим одиночной базы (config.json)"@ && init_text(
            diagnostics,
            aliases,
        ) == tried_text(diagnostics),
        aliases.len() > 0 ==> bases_line(aliases) == "GUI: реестр баз ("@ + text::dec(aliases.len())
            + " шт.): "@ + text::join(aliases, ", "@) && init_text(diagnostics, aliases)
            == tried_text(diagnostics) + ("[init] Реестр баз ("@ + text::dec(aliases.len())
            + " шт.): "@ + text::join(aliases, ", "@) + "\n"@),
{
    assert(diagnostics.push(more).drop_last() =~= diagnostics);
    if aliases.len() == 0 {
        assert(tried_text(diagnostics) + Seq::<char>::empty() =~= tried_text(diagnostics));
    }
}

/// A base is chosen by its alias: the first one of that alias.
pub proof fn base_is_chosen_by_its_alias(bases: Seq<BaseEntry>, alias: Seq<char>, i: int, j: int)
    requires
        base_at(bases, alias, i),
        0 <= j < bases.len(),
        bases[j].alias@ == alias,
    ensures
        i <= j,
        bases[i].alias@ == alias,
{
}

/// A field that is empty says nothing, and one of blanks neither.
pub proof fn empty_fields_say_nothing(s: Seq<char>)
    ensures
        s.len() == 0 ==> nonempty(s) is None,
        s.len() > 0 ==> nonempty(s) == Some(s),
        text::trim(s).len() == 0 ==> filled(s) is None,
        text::trim(s).len() > 0 ==> filled(s) == Some(s),
{
}

/// Line ends are made whole: one that is whole stays, and a bare one becomes
/// whole; nothing else of a text changes.
#[verifier::rlimit(40)]
pub proof fn line_ends_are_made_whole(c: char, s: Seq<char>)
    requires
        c != '\r',
        !s.contains('\r'),
    ensures
        crlf(Seq::empty()).len() == 0,
        crlf(seq![c] + s) == if c == '\n' {
            "\r\n"@ + crlf(s)
        } else {
            seq![c] + crlf(s)
        },
        crlf("\r\n"@ + s) == "\r\n"@ + crlf(s),
{
    reveal_strlit("\r\n");
    reveal_strlit("\n");
    let p = "\r\n"@;
    let n = "\n"@;
    let t = seq![c] + s;
    assert(!t.contains('\r')) by {
        if t.contains('\r') {
            let i = t.index_of('\r');
            if i > 0 {
                assert(s[i - 1] == '\r');
                assert(s.contains('\r'));
            }
        }
    }
    lemma_no_whole_ends(s);
    lemma_no_whole_ends(t);
    assert(t.skip(1) =~= s);
    if c == '\n' {
        assert(t.take(1) =~= n);
    } else if text::starts(t, n) {
        assert(t.take(1)[0] == t[0]);
    }
    let w = p + s;
    assert(w.take(2) =~= p);
    assert(w.skip(2) =~= s);
    assert(text::replace(w, p, n) == n + s);
    assert((n + s).take(1) =~= n);
    assert((n + s).skip(1) =~= s);
    lemma_no_whole_ends(Seq::empty());
}

proof fn lemma_no_whole_ends(s: Seq<char>)
    requires
        !s.contains('\r'),
    ensures
        text::replace(s, "\r\n"@, "\n"@) == s,
    decreases s.len(),
{
    reveal_strlit("\r\n");
    let p = "\r\n"@;
    if s.len() >= 2 {
        if text::starts(s, p) {
            assert(s.take(2)[0] == s[0]);
            assert(s.contains('\r'));
        }
        let t = s.skip(1);
        assert(!t.contains('\r')) by {
            if t.contains('\r') {
                let i = t.index_of('\r');
                assert(s[i + 1] == '\r');
                assert(s.contains('\r'));
            }
        }
        lemma_no_whole_ends(t);
        assert(seq![s[0]] + t =~= s);
    }
}

} // verus!
