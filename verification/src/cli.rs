//! What the arguments of the program ask for.

use vstd::prelude::*;

use crate::command_builder::{IbcmdDbAuth, IbcmdParams};
use crate::config::{AppConfig, AuthConfig, AuthType};
use crate::export::{DiscoveryMode, ExportOptions, ProcessingsCliParams};
use crate::git_push::{self, GitAuth};
use crate::paths;
use crate::processings::StorageMapping;
use crate::sql_signals;
use crate::storage_mapping::MappingView;
use crate::text;

verus! {

/// The arguments of an export.
#[derive(Debug, Clone)]
pub struct CliArgs {
    pub server: Option<String>,
    pub server_1c: Option<String>,
    pub database: Option<String>,
    pub auth_type: Option<AuthType>,
    pub login: Option<String>,
    pub password: Option<String>,
    pub ibcmd_path: Option<String>,
    pub output_path: Option<String>,
    pub export_base: bool,
    pub export_extensions: bool,
    pub export_processings: bool,
    pub save_artifacts: bool,
    pub sql_server: Option<String>,
    pub processings_table: Option<String>,
    pub processings_field_storage: Option<String>,
    pub processings_field_hash: Option<String>,
    pub processings_field_kind: Option<String>,
    pub rediscover: bool,
    pub discovery: DiscoveryMode,
    pub ibcmd_dbms: String,
    pub ibcmd_db_auth_windows: bool,
    pub ibcmd_db_user: Option<String>,
    pub ibcmd_db_pwd: Option<String>,
    pub ibcmd_use_connection_string: bool,
    pub ibcmd_jobs: u32,
    pub ibcmd_sync: bool,
    pub ibcmd_force: bool,
    pub ibcmd_incremental: bool,
    pub processings_full: bool,
    pub git_push: bool,
    pub git_message: Option<String>,
    pub git_repo: Option<String>,
    pub git_password_auth: bool,
    pub git_user: Option<String>,
    pub git_password: Option<String>,
}

/// The text that was given, else the one from before.
pub open spec fn given_or(given: Option<String>, old: Seq<char>) -> Seq<char> {
    match given {
        Some(s) => s@,
        None => old,
    }
}

/// The text that was given, else the one from before.
fn take_given(given: &Option<String>, old: String) -> (r: String)
    ensures
        r@ == given_or(*given, old@),
{
    match given {
        Some(s) => s.clone(),
        None => old,
    }
}

/// `r` is the configuration with what the arguments say in its place.
pub open spec fn is_overridden(r: AppConfig, c: AppConfig, a: CliArgs) -> bool {
    &&& r.server@ == given_or(a.server, c.server@)
    &&& r.server_1c@ == given_or(a.server_1c, c.server_1c@)
    &&& r.database@ == given_or(a.database, c.database@)
    &&& r.authentication.auth_type == match a.auth_type {
        Some(t) => t,
        None => c.authentication.auth_type,
    }
    &&& r.authentication.login@ == given_or(a.login, c.authentication.login@)
    &&& r.authentication.password@ == given_or(a.password, c.authentication.password@)
    &&& r.ibcmd_path@ == given_or(a.ibcmd_path, c.ibcmd_path@)
    &&& r.output_path@ == given_or(a.output_path, c.output_path@)
    &&& r.sql_database == c.sql_database
    &&& r.mcp_url == c.mcp_url
    &&& r.mcp_api_key == c.mcp_api_key
    &&& r.processings_meta_name == c.processings_meta_name
    &&& r.git_remote_url == c.git_remote_url
    &&& r.git_autocrlf == c.git_autocrlf
    &&& r.log_level == c.log_level
    &&& r.save_artifacts == c.save_artifacts
    &&& r.extensions == c.extensions
}

/// The error of names that are given in part.
pub const PARTIAL_MAPPING: &'static str = "--processings-table/--processings-field-* указываются все вместе или ни одного";

/// The error of an export of processors without a login for the database.
pub const NO_SQL_LOGIN: &'static str = "--export-processings требует либо --ibcmd-db-auth-windows, либо связки --ibcmd-db-user/--ibcmd-db-pwd (SQL-коннект)";

/// The names of the catalogue that are given by hand: all or none. Whether the
/// hash is binary is told by `lower`, the name of its column in lower case.
pub open spec fn given_mapping(a: CliArgs, lower: Seq<char>) -> Result<Option<MappingView>, Seq<
    char,
>> {
    match (
        a.processings_table,
        a.processings_field_storage,
        a.processings_field_hash,
        a.processings_field_kind,
    ) {
        (Some(table), Some(storage), Some(hash), Some(kind)) => Ok(
            Some(
                MappingView {
                    table: table@,
                    field_storage: storage@,
                    field_hash: hash@,
                    field_kind: kind@,
                    enum_table: Seq::empty(),
                    hash_is_binary: text::eq_ignore_case(hash@, "_Version"@)
                        || sql_signals::names_version(lower),
                },
            ),
        ),
        (None, None, None, None) => Ok(None),
        _ => Err(PARTIAL_MAPPING@),
    }
}

/// The result of reading the names that are given by hand, by its views.
pub open spec fn mapping_result(r: Result<Option<StorageMapping>, String>) -> Result<
    Option<MappingView>,
    Seq<char>,
> {
    match r {
        Ok(Some(m)) => Ok(Some(m@)),
        Ok(None) => Ok(None),
        Err(e) => Err(e@),
    }
}

impl CliArgs {
    /// Whether anything is to be exported.
    pub fn has_action(&self) -> (r: bool)
        ensures
            r == (self.export_base || self.export_extensions || self.export_processings),
    {
        self.export_base || self.export_extensions || self.export_processings
    }

    /// The configuration with what the arguments say in its place.
    pub fn override_config(&self, config: AppConfig) -> (r: AppConfig)
        ensures
            is_overridden(r, config, *self),
    {
        let auth_type = match self.auth_type {
            Some(t) => t,
            None => config.authentication.auth_type,
        };
        AppConfig {
            server: take_given(&self.server, config.server),
            server_1c: take_given(&self.server_1c, config.server_1c),
            database: take_given(&self.database, config.database),
            sql_database: config.sql_database,
            authentication: AuthConfig {
                auth_type,
                login: take_given(&self.login, config.authentication.login),
                password: take_given(&self.password, config.authentication.password),
            },
            ibcmd_path: take_given(&self.ibcmd_path, config.ibcmd_path),
            mcp_url: config.mcp_url,
            mcp_api_key: config.mcp_api_key,
            processings_meta_name: config.processings_meta_name,
            git_remote_url: config.git_remote_url,
            git_autocrlf: config.git_autocrlf,
            output_path: take_given(&self.output_path, config.output_path),
            log_level: config.log_level,
            save_artifacts: config.save_artifacts,
            extensions: config.extensions,
        }
    }

    /// The parameters of `ibcmd`.
    pub fn ibcmd_params(&self, ibcmd_path: String) -> (r: IbcmdParams)
        ensures
            r.ibcmd_path == ibcmd_path,
            r.dbms@ == self.ibcmd_dbms@,
            r.db_auth == if self.ibcmd_db_auth_windows {
                IbcmdDbAuth::Windows
            } else {
                IbcmdDbAuth::SqlLogin
            },
            text::opt_view(r.db_user) == text::opt_view(self.ibcmd_db_user),
            text::opt_view(r.db_pwd) == text::opt_view(self.ibcmd_db_pwd),
            r.use_connection_string == self.ibcmd_use_connection_string,
            r.jobs == self.ibcmd_jobs,
            r.sync == self.ibcmd_sync,
            r.force == self.ibcmd_force,
            r.incremental_extensions == self.ibcmd_incremental,
    {
        IbcmdParams {
            ibcmd_path,
            dbms: self.ibcmd_dbms.clone(),
            db_auth: if self.ibcmd_db_auth_windows {
                IbcmdDbAuth::Windows
            } else {
                IbcmdDbAuth::SqlLogin
            },
            db_user: text::clone_opt(&self.ibcmd_db_user),
            db_pwd: text::clone_opt(&self.ibcmd_db_pwd),
            use_connection_string: self.ibcmd_use_connection_string,
            jobs: self.ibcmd_jobs,
            sync: self.ibcmd_sync,
            force: self.ibcmd_force,
            incremental_extensions: self.ibcmd_incremental,
        }
    }

    /// The names of the catalogue that are given by hand, where `lower` is the
    /// name of the column of the hash in lower case.
    pub fn mapping_with(&self, lower: &str) -> (r: Result<Option<StorageMapping>, String>)
        ensures
            mapping_result(r) == given_mapping(*self, lower@),
    {
        match (
            &self.processings_table,
            &self.processings_field_storage,
            &self.processings_field_hash,
            &self.processings_field_kind,
        ) {
            (Some(table), Some(storage), Some(hash), Some(kind)) => {
                let binary = text::same_ignore_case(hash, "_Version")
                    || sql_signals::is_version_column(lower);
                Ok(
                    Some(
                        StorageMapping {
                            table: table.clone(),
                            field_storage: storage.clone(),
                            field_hash: hash.clone(),
                            field_kind: kind.clone(),
                            enum_table: String::new(),
                            hash_is_binary: binary,
                        },
                    ),
                )
            },
            (None, None, None, None) => Ok(None),
            _ => Err(PARTIAL_MAPPING.to_owned()),
        }
    }

    /// The names of the catalogue that are given by hand.
    pub fn override_mapping(&self) -> (r: Result<Option<StorageMapping>, String>)
        ensures
            mapping_result(r) == given_mapping(
                *self,
                match self.processings_field_hash {
                    Some(hash) => text::lower(hash@),
                    None => Seq::empty(),
                },
            ),
    {
        let lower = match &self.processings_field_hash {
            Some(hash) => text::to_lowercase(hash),
            None => String::new(),
        };
        self.mapping_with(&lower)
    }

    /// The parameters of the export of processors, if there is one. It needs a
    /// login for the database, and names that are given in full or not at all.
    pub fn processings_params(&self, server: &str) -> (r: Result<
        Option<ProcessingsCliParams>,
        String,
    >)
        ensures
            ({
                let mapping = given_mapping(
                    *self,
                    match self.processings_field_hash {
                        Some(hash) => text::lower(hash@),
                        None => Seq::empty(),
                    },
                );
                if !self.export_processings {
                    r == Ok::<Option<ProcessingsCliParams>, String>(None)
                } else if !self.ibcmd_db_auth_windows && (self.ibcmd_db_user is None
                    || self.ibcmd_db_pwd is None) {
                    r matches Err(e) && e@ == NO_SQL_LOGIN@
                } else {
                    match mapping {
                        Err(e) => r matches Err(m) && m@ == e,
                        Ok(m) => r matches Ok(Some(p)) && {
                            &&& p.sql_server@ == given_or(self.sql_server, server@)
                            &&& crate::export::opt_mapping(p.override_mapping) == m
                            &&& p.rediscover == self.rediscover
                            &&& p.incremental == !self.processings_full
                            &&& p.discovery == self.discovery
                        },
                    }
                }
            }),
    {
        if !self.export_processings {
            return Ok(None);
        }
        if !self.ibcmd_db_auth_windows && (self.ibcmd_db_user.is_none()
            || self.ibcmd_db_pwd.is_none()) {
            return Err(NO_SQL_LOGIN.to_owned());
        }
        match self.override_mapping() {
            Err(e) => Err(e),
            Ok(override_mapping) => Ok(
                Some(
                    ProcessingsCliParams {
                        sql_server: take_given(&self.sql_server, server.to_owned()),
                        override_mapping,
                        rediscover: self.rediscover,
                        incremental: !self.processings_full,
                        discovery: self.discovery,
                    },
                ),
            ),
        }
    }

    /// The export that is asked for; binary copies are kept where the
    /// arguments or the configuration ask for them.
    pub fn export_options(
        &self,
        save_artifacts: bool,
        params: IbcmdParams,
        processings: Option<ProcessingsCliParams>,
    ) -> (r: ExportOptions)
        ensures
            r.export_base == self.export_base,
            r.export_extensions == self.export_extensions,
            r.export_processings == self.export_processings,
            r.save_artifacts == (self.save_artifacts || save_artifacts),
            r.config_changed is None,
            r.ibcmd_params == params,
            r.processings_params == processings,
    {
        ExportOptions {
            export_base: self.export_base,
            export_extensions: self.export_extensions,
            export_processings: self.export_processings,
            save_artifacts: self.save_artifacts || save_artifacts,
            config_changed: None,
            ibcmd_params: params,
            processings_params: processings,
        }
    }

    /// How git authorises; a login that is not given is empty.
    pub fn git_auth(&self) -> (r: GitAuth)
        ensures
            match r {
                GitAuth::Domain => !self.git_password_auth,
                GitAuth::UserPassword { user, password } => self.git_password_auth && user@
                    == given_or(self.git_user, Seq::empty()) && password@ == given_or(
                    self.git_password,
                    Seq::empty(),
                ),
            },
    {
        if self.git_password_auth {
            GitAuth::UserPassword {
                user: take_given(&self.git_user, String::new()),
                password: take_given(&self.git_password, String::new()),
            }
        } else {
            GitAuth::Domain
        }
    }

    /// The directory of the git repository: the one given, else that of the
    /// export.
    pub fn git_dir(&self, output_path: &str) -> (r: String)
        ensures
            r@ == given_or(self.git_repo, output_path@),
    {
        take_given(&self.git_repo, output_path.to_owned())
    }

    /// Whether the outcome of an export is pushed: where that was asked for and
    /// the export succeeded.
    pub fn wants_push(&self, success: bool) -> (r: bool)
        ensures
            r == (success && self.git_push),
    {
        success && self.git_push
    }

    /// The message of the commit: the one that was given, else that of a commit
    /// made today.
    pub fn commit_message(&self) -> (r: String)
        ensures
            match self.git_message {
                Some(m) => r@ == m@,
                None => exists|year: int, month: int, day: int|
                    1 <= month <= 12 && 1 <= day <= 31 && r@ == #[trigger] git_push::message_on(
                        year,
                        month,
                        day,
                    ),
            },
    {
        match &self.git_message {
            Some(m) => m.clone(),
            None => git_push::default_commit_message(),
        }
    }
}

// The end of the program.

/// The exit code: 1 where the export failed, 2 where it did not and the push
/// did.
pub open spec fn exit_code_of(success: bool, push_failed: bool) -> i32 {
    if !success {
        1
    } else if push_failed {
        2
    } else {
        0
    }
}

/// The exit code; `pushed` is what came of the push, where there was one.
pub fn exit_code(success: bool, pushed: Option<bool>) -> (r: i32)
    ensures
        r == exit_code_of(success, pushed == Some(false)),
{
    if !success {
        return 1;
    }
    match pushed {
        Some(ok) => if ok {
            0
        } else {
            2
        },
        None => 0,
    }
}

/// A path of the register of bases: as it is where it is absolute, else inside
/// the directory of the register.
pub fn resolve(dir: &str, path: &str, is_absolute: bool) -> (r: String)
    ensures
        is_absolute ==> r@ == path@,
        !is_absolute ==> paths::is_joined(r@, dir@, path@),
{
    if is_absolute {
        path.to_owned()
    } else {
        paths::join(dir, path)
    }
}

/// What is exported and where, for those who want to know.
pub open spec fn verbose_text(c: AppConfig, sync: bool) -> Seq<Seq<char>> {
    seq![
        "Сервер MSSQL:   "@ + c.server@,
        "Сервер 1С:      "@ + crate::config::or_else(c.server_1c@, c.server@)
            + if c.server_1c@.len() == 0 {
            " (= MSSQL, явно не задан)"@
        } else {
            ""@
        },
        "База данных:    "@ + c.database@,
        "Аутентификация 1С: "@ + match c.authentication.auth_type {
            AuthType::Os => "Os"@,
            AuthType::Password => "Password"@,
        },
        "ibcmd.exe:      "@ + c.ibcmd_path@,
        "Выгрузка в:     "@ + c.output_path@,
        "Инкрементально: "@ + if sync {
            "true"@
        } else {
            "false"@
        },
    ]
}

/// A label and what follows it.
fn labelled(label: &str, value: &str) -> (r: String)
    ensures
        r@ == label@ + value@,
{
    let mut s = label.to_owned();
    s.append(value);
    s
}

/// What is exported and where, for those who want to know.
pub fn verbose_lines(config: &AppConfig, sync: bool) -> (r: Vec<String>)
    ensures
        text::views(r@) == verbose_text(*config, sync),
{
    let mut lines: Vec<String> = Vec::new();
    lines.push(labelled("Сервер MSSQL:   ", &config.server));
    let mut server = labelled("Сервер 1С:      ", config.server_for_1c());
    if config.server_1c.as_str().is_empty() {
        server.append(" (= MSSQL, явно не задан)");
    } else {
        server.append("");
    }
    lines.push(server);
    lines.push(labelled("База данных:    ", &config.database));
    let auth = match config.authentication.auth_type {
        AuthType::Os => "Os",
        AuthType::Password => "Password",
    };
    lines.push(labelled("Аутентификация 1С: ", auth));
    lines.push(labelled("ibcmd.exe:      ", &config.ibcmd_path));
    lines.push(labelled("Выгрузка в:     ", &config.output_path));
    let mode = if sync {
        "true"
    } else {
        "false"
    };
    lines.push(labelled("Инкрементально: ", mode));
    assert(text::views(lines@) =~= verbose_text(*config, sync));
    lines
}

// Laws.

/// Arguments that say nothing leave the configuration as it is.
pub proof fn no_argument_changes_nothing(r: AppConfig, c: AppConfig, a: CliArgs)
    requires
        is_overridden(r, c, a),
        a.server is None && a.server_1c is None && a.database is None && a.auth_type is None,
        a.login is None && a.password is None && a.ibcmd_path is None && a.output_path is None,
    ensures
        r.server@ == c.server@ && r.server_1c@ == c.server_1c@ && r.database@ == c.database@,
        r.authentication.auth_type == c.authentication.auth_type,
        r.authentication.login@ == c.authentication.login@,
        r.authentication.password@ == c.authentication.password@,
        r.ibcmd_path@ == c.ibcmd_path@ && r.output_path@ == c.output_path@,
{
}

/// An argument that is given is used, each for its own setting; where it is not
/// given, the setting stays.
pub proof fn given_arguments_are_used(r: AppConfig, c: AppConfig, a: CliArgs)
    requires
        is_overridden(r, c, a),
    ensures
        a.server matches Some(s) ==> r.server@ == s@,
        a.server is None ==> r.server@ == c.server@,
        a.server_1c matches Some(s) ==> r.server_1c@ == s@,
        a.server_1c is None ==> r.server_1c@ == c.server_1c@,
        a.database matches Some(s) ==> r.database@ == s@,
        a.database is None ==> r.database@ == c.database@,
        a.auth_type matches Some(t) ==> r.authentication.auth_type == t,
        a.auth_type is None ==> r.authentication.auth_type == c.authentication.auth_type,
        a.login matches Some(s) ==> r.authentication.login@ == s@,
        a.login is None ==> r.authentication.login@ == c.authentication.login@,
        a.password matches Some(s) ==> r.authentication.password@ == s@,
        a.password is None ==> r.authentication.password@ == c.authentication.password@,
        a.ibcmd_path matches Some(s) ==> r.ibcmd_path@ == s@,
        a.ibcmd_path is None ==> r.ibcmd_path@ == c.ibcmd_path@,
        a.output_path matches Some(s) ==> r.output_path@ == s@,
        a.output_path is None ==> r.output_path@ == c.output_path@,
        r.sql_database == c.sql_database && r.mcp_url == c.mcp_url && r.mcp_api_key == c.mcp_api_key,
        r.processings_meta_name == c.processings_meta_name && r.git_remote_url == c.git_remote_url,
        r.git_autocrlf == c.git_autocrlf && r.log_level == c.log_level && r.save_artifacts
            == c.save_artifacts && r.extensions == c.extensions,
{
}

/// The names of the columns are given all together or not at all; a hash that is
/// a version is binary.
pub proof fn names_are_given_together(a: CliArgs, lower: Seq<char>)
    ensures
        ({
            let t = a.processings_table;
            let s = a.processings_field_storage;
            let h = a.processings_field_hash;
            let k = a.processings_field_kind;
            match given_mapping(a, lower) {
                Ok(None) => t is None && s is None && h is None && k is None,
                Ok(Some(m)) => t is Some && s is Some && h is Some && k is Some && m.table
                    == t->Some_0@ && m.field_storage == s->Some_0@ && m.field_hash == h->Some_0@
                    && m.field_kind == k->Some_0@ && m.enum_table.len() == 0 && (m.hash_is_binary
                    <==> text::lowered(m.field_hash) == text::lowered("_Version"@) || text::has(
                    lower,
                    "version"@,
                )),
                Err(e) => (t is Some || s is Some || h is Some || k is Some) && (t is None || s
                    is None || h is None || k is None) && e
                    == "--processings-table/--processings-field-* указываются все вместе или ни одного"@,
            }
        }),
{
    if let Some(h) = a.processings_field_hash {
        text::capital_letters_are_lowered(h@, "_Version"@);
    }
}

/// A failed export and a failed push each have a code of their own, and only
/// success has none.
pub proof fn failures_have_codes(push_failed: bool)
    ensures
        exit_code_of(true, false) == 0,
        exit_code_of(false, push_failed) == 1,
        exit_code_of(true, true) == 2,
{
}

/// What is used is shown, each setting in its line.
pub proof fn settings_are_shown(c: AppConfig, sync: bool)
    ensures
        ({
            let v = verbose_text(c, sync);
            &&& v.len() == 7
            &&& v[0] == "Сервер MSSQL:   "@ + c.server@
            &&& c.server_1c@.len() > 0 ==> v[1] == "Сервер 1С:      "@ + c.server_1c@ + ""@
            &&& c.server_1c@.len() == 0 ==> v[1] == "Сервер 1С:      "@ + c.server@
                + " (= MSSQL, явно не задан)"@
            &&& v[2] == "База данных:    "@ + c.database@
            &&& c.authentication.auth_type == AuthType::Os ==> v[3] == "Аутентификация 1С: "@ + "Os"@
            &&& c.authentication.auth_type == AuthType::Password ==> v[3]
                == "Аутентификация 1С: "@ + "Password"@
            &&& v[4] == "ibcmd.exe:      "@ + c.ibcmd_path@
            &&& v[5] == "Выгрузка в:     "@ + c.output_path@
            &&& sync ==> v[6] == "Инкрементально: "@ + "true"@
            &&& !sync ==> v[6] == "Инкрементально: "@ + "false"@
        }),
{
}

} // verus!
