//! The configuration of one export.

use vstd::prelude::*;

use crate::bases_config::{self, BaseEntry};
use crate::error::{ErrorView, ExportError};
use crate::paths;
use crate::text;

verus! {

/// How to authorise in the base.
#[derive(Debug, Clone, Copy, PartialEq, Eq, Structural)]
pub enum AuthType {
    Os,
    Password,
}

/// The authorisation in the base.
#[derive(Debug, Clone)]
pub struct AuthConfig {
    pub auth_type: AuthType,
    pub login: String,
    pub password: String,
}

/// The configuration of one export.
#[derive(Debug, Clone)]
pub struct AppConfig {
    /// The database server.
    pub server: String,
    /// The application server; empty where it is the database server too.
    pub server_1c: String,
    /// The name of the base on the application server.
    pub database: String,
    /// The name of the database; empty where it is that of the base.
    pub sql_database: String,
    pub authentication: AuthConfig,
    pub ibcmd_path: String,
    pub mcp_url: String,
    pub mcp_api_key: String,
    pub processings_meta_name: String,
    pub git_remote_url: String,
    pub git_autocrlf: String,
    pub output_path: String,
    pub log_level: String,
    pub save_artifacts: bool,
    pub extensions: Vec<String>,
}

/// The complaints about a configuration; `ibcmd_exists` tells whether there is
/// a file at `ibcmd_path`.
pub open spec fn complaints(c: AppConfig, ibcmd_exists: bool) -> Seq<Seq<char>> {
    let server = if c.server@.len() == 0 {
        seq!["Не указан SQL-сервер (sqlServer)"@]
    } else {
        Seq::empty()
    };
    let ibcmd = if c.ibcmd_path@.len() == 0 {
        seq!["Не указан путь к ibcmd.exe (ibcmd_path)"@]
    } else if !ibcmd_exists {
        seq!["ibcmd.exe не найден: "@ + c.ibcmd_path@]
    } else {
        Seq::empty()
    };
    let autocrlf = if !bases_config::autocrlf_ok(c.git_autocrlf@) {
        seq![
            "Недопустимое значение gitAutocrlf: '"@ + c.git_autocrlf@
                + "' — допустимы false, true, input или пустая строка"@,
        ]
    } else {
        Seq::empty()
    };
    let login = if c.authentication.auth_type == AuthType::Password
        && c.authentication.login@.len() == 0 {
        seq!["Не указан логин (authentication.login)"@]
    } else {
        Seq::empty()
    };
    server + ibcmd + autocrlf + login
}

/// The first text, or the second where the first is empty.
pub open spec fn or_else(a: Seq<char>, b: Seq<char>) -> Seq<char> {
    if a.len() > 0 {
        a
    } else {
        b
    }
}

impl AppConfig {
    /// The configuration of a base of the register.
    pub fn from_base(b: &BaseEntry) -> (r: AppConfig)
        ensures
            r.server@ == b.sql_server@,
            r.server_1c@ == b.server_1c@,
            r.database@.len() == 0,
            r.sql_database@ == b.sql_database@,
            r.authentication.auth_type == AuthType::Password,
            r.authentication.login@ == b.login@,
            r.authentication.password@ == b.password@,
            r.ibcmd_path@ == b.ibcmd_path@,
            r.mcp_url@ == b.mcp_url@,
            r.mcp_api_key@ == b.mcp_api_key@,
            r.processings_meta_name@.len() == 0,
            r.git_remote_url@ == b.git_remote_url@,
            r.git_autocrlf@ == b.git_autocrlf@,
            r.output_path@ == b.output_path@,
            r.log_level@ == "info"@,
            r.save_artifacts == b.save_artifacts,
            r.extensions@.len() == 0,
    {
        AppConfig {
            server: b.sql_server.clone(),
            server_1c: b.server_1c.clone(),
            database: String::new(),
            sql_database: b.sql_database.clone(),
            authentication: AuthConfig {
                auth_type: AuthType::Password,
                login: b.login.clone(),
                password: b.password.clone(),
            },
            ibcmd_path: b.ibcmd_path.clone(),
            mcp_url: b.mcp_url.clone(),
            mcp_api_key: b.mcp_api_key.clone(),
            processings_meta_name: String::new(),
            git_remote_url: b.git_remote_url.clone(),
            git_autocrlf: b.git_autocrlf.clone(),
            output_path: b.output_path.clone(),
            log_level: bases_config::default_log_level(),
            save_artifacts: b.save_artifacts,
            extensions: Vec::new(),
        }
    }

    /// Checks the configuration; all complaints are collected. `ibcmd_exists`
    /// tells whether there is a file at `ibcmd_path`.
    pub fn validate(&self, ibcmd_exists: bool) -> (r: Result<(), Vec<String>>)
        ensures
            match r {
                Ok(_) => complaints(*self, ibcmd_exists).len() == 0,
                Err(v) => text::views(v@) == complaints(*self, ibcmd_exists) && v@.len() > 0,
            },
    {
        let mut errors: Vec<String> = Vec::new();
        if self.server.as_str().is_empty() {
            errors.push("Не указан SQL-сервер (sqlServer)".to_owned());
        }
        if self.ibcmd_path.as_str().is_empty() {
            errors.push("Не указан путь к ibcmd.exe (ibcmd_path)".to_owned());
        } else if !ibcmd_exists {
            let mut m = "ibcmd.exe не найден: ".to_owned();
            m.append(&self.ibcmd_path);
            errors.push(m);
        }
        if !bases_config::is_valid_git_autocrlf(&self.git_autocrlf) {
            let mut m = "Недопустимое значение gitAutocrlf: '".to_owned();
            m.append(&self.git_autocrlf);
            m.append("' — допустимы false, true, input или пустая строка");
            errors.push(m);
        }
        if self.authentication.auth_type == AuthType::Password
            && self.authentication.login.as_str().is_empty() {
            errors.push("Не указан логин (authentication.login)".to_owned());
        }
        assert(text::views(errors@) =~= complaints(*self, ibcmd_exists));
        assert(errors@.len() == text::views(errors@).len());
        if errors.len() == 0 {
            Ok(())
        } else {
            Err(errors)
        }
    }

    /// The application server, or the database server where none is named.
    pub fn server_for_1c(&self) -> (r: &str)
        ensures
            r@ == or_else(self.server_1c@, self.server@),
    {
        if !self.server_1c.as_str().is_empty() {
            self.server_1c.as_str()
        } else {
            self.server.as_str()
        }
    }

    /// The metadata name of the catalogue of processors.
    pub fn processings_meta_name(&self) -> (r: &str)
        ensures
            r@ == or_else(
                self.processings_meta_name@,
                "Справочник.ДополнительныеОтчетыИОбработки"@,
            ),
    {
        if self.processings_meta_name.as_str().is_empty() {
            "Справочник.ДополнительныеОтчетыИОбработки"
        } else {
            self.processings_meta_name.as_str()
        }
    }

    /// The name of the database, or that of the base where none is named.
    pub fn sql_database_name(&self) -> (r: &str)
        ensures
            r@ == or_else(self.sql_database@, self.database@),
    {
        if !self.sql_database.as_str().is_empty() {
            self.sql_database.as_str()
        } else {
            self.database.as_str()
        }
    }

    /// The path of `ibcmd.exe`; `exists` tells whether there is a file.
    pub fn ibcmd_path(&self, exists: bool) -> (r: Result<String, ExportError>)
        ensures
            match r {
                Ok(p) => exists && p@ == self.ibcmd_path@,
                Err(e) => !exists && e@ == ErrorView::IbcmdNotFound(
                    "ibcmd.exe не найден: "@ + self.ibcmd_path@,
                ),
            },
    {
        if !exists {
            let mut m = "ibcmd.exe не найден: ".to_owned();
            m.append(&self.ibcmd_path);
            return Err(ExportError::IbcmdNotFound(m));
        }
        Ok(self.ibcmd_path.clone())
    }

    /// The directory of `ibcmd.exe`.
    pub fn platform_dir(&self) -> (r: Result<String, ExportError>)
        ensures
            match r {
                Ok(dir) => paths::is_parent(self.ibcmd_path@, Some(dir@)),
                Err(e) => paths::is_parent(self.ibcmd_path@, None) && e@ == no_platform_error(
                    self.ibcmd_path@,
                ),
            },
    {
        match paths::parent(&self.ibcmd_path) {
            Some(dir) => Ok(dir),
            None => {
                let mut m = "Не удалось определить каталог платформы из ibcmd_path=".to_owned();
                m.append(&self.ibcmd_path);
                Err(ExportError::IbcmdNotFound(m))
            },
        }
    }

    /// The path of `1cv8.exe`, which lies beside `ibcmd.exe`; `exists` tells
    /// whether there is a file.
    pub fn platform_1cv8_path(&self, exists: bool) -> (r: Result<String, ExportError>)
        ensures
            exists|dir: Option<Seq<char>>| #[trigger]
                paths::is_parent(self.ibcmd_path@, dir) && match (r, dir) {
                    (Ok(p), Some(d)) => exists && paths::is_joined(p@, d, "1cv8.exe"@),
                    (Err(e), Some(d)) => !exists && e@ == ErrorView::IbcmdNotFound(
                        "1cv8.exe не найден в "@ + d,
                    ),
                    (Err(e), None) => e@ == no_platform_error(self.ibcmd_path@),
                    (Ok(_), None) => false,
                },
    {
        match self.platform_dir() {
            Err(e) => {
                assert(paths::is_parent(self.ibcmd_path@, None));
                Err(e)
            },
            Ok(dir) => {
                assert(paths::is_parent(self.ibcmd_path@, Some(dir@)));
                if !exists {
                    let mut m = "1cv8.exe не найден в ".to_owned();
                    m.append(&dir);
                    return Err(ExportError::IbcmdNotFound(m));
                }
                Ok(platform_exe(&dir))
            },
        }
    }
}

/// The error about a path that stands in no directory.
pub open spec fn no_platform_error(ibcmd_path: Seq<char>) -> ErrorView {
    ErrorView::IbcmdNotFound(
        "Не удалось определить каталог платформы из ibcmd_path="@ + ibcmd_path,
    )
}

/// The path of `1cv8.exe` in the directory of the platform.
pub fn platform_exe(bin_dir: &str) -> (r: String)
    ensures
        paths::is_joined(r@, bin_dir@, "1cv8.exe"@),
{
    paths::join(bin_dir, "1cv8.exe")
}

// Laws.

/// Everything that an export needs and does not have is complained about, in one
/// order, and nothing else.
#[verifier::rlimit(40)]
pub proof fn missing_settings_are_complained_about(c: AppConfig, ibcmd_exists: bool)
    ensures
        ({
            let v = complaints(c, ibcmd_exists);
            let ends = text::trim(c.git_autocrlf@);
            let s: int = if c.server@.len() == 0 {
                1
            } else {
                0
            };
            let p: int = if c.ibcmd_path@.len() == 0 || !ibcmd_exists {
                1
            } else {
                0
            };
            let l: int = if ends.len() > 0 && ends != "false"@ && ends != "true"@ && ends
                != "input"@ {
                1
            } else {
                0
            };
            let a: int = if c.authentication.auth_type == AuthType::Password
                && c.authentication.login@.len() == 0 {
                1
            } else {
                0
            };
            &&& v.len() == s + p + l + a
            &&& s == 1 ==> v[0] == "Не указан SQL-сервер (sqlServer)"@
            &&& c.ibcmd_path@.len() == 0 ==> v[s] == "Не указан путь к ibcmd.exe (ibcmd_path)"@
            &&& c.ibcmd_path@.len() > 0 && !ibcmd_exists ==> v[s] == "ibcmd.exe не найден: "@
                + c.ibcmd_path@
            &&& l == 1 ==> v[s + p] == "Недопустимое значение gitAutocrlf: '"@ + c.git_autocrlf@
                + "' — допустимы false, true, input или пустая строка"@
            &&& a == 1 ==> v[s + p + l] == "Не указан логин (authentication.login)"@
        }),
{
    reveal_strlit("");
    if text::trim(c.git_autocrlf@).len() == 0 {
        assert(text::trim(c.git_autocrlf@) =~= ""@);
    }
}

/// A text stands for itself, and another one for it where it is empty.
pub proof fn empty_text_is_replaced(a: Seq<char>, b: Seq<char>)
    ensures
        a.len() > 0 ==> or_else(a, b) == a,
        a.len() == 0 ==> or_else(a, b) == b,
{
}

/// A program whose directory is not known is told.
pub proof fn unknown_platform_is_told(ibcmd_path: Seq<char>)
    ensures
        no_platform_error(ibcmd_path) == ErrorView::IbcmdNotFound(
            "Не удалось определить каталог платформы из ibcmd_path="@ + ibcmd_path,
        ),
{
}

} // verus!
