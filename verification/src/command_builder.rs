//! The command lines of `ibcmd`.

use vstd::prelude::*;

use crate::config::{self, AppConfig, AuthType};
use crate::paths;
use crate::text;

verus! {

/// How `ibcmd` authorises at the database server.
#[derive(Debug, Clone, Copy, PartialEq, Eq, Structural)]
pub enum IbcmdDbAuth {
    /// As the user of the system; no login is handed over.
    Windows,
    /// With a login of the database server.
    SqlLogin,
}

/// The parameters of `ibcmd`.
#[derive(Debug, Clone)]
pub struct IbcmdParams {
    pub ibcmd_path: String,
    pub dbms: String,
    pub db_auth: IbcmdDbAuth,
    pub db_user: Option<String>,
    pub db_pwd: Option<String>,
    pub use_connection_string: bool,
    /// The number of threads of an export; 0 leaves it to `ibcmd`.
    pub jobs: u32,
    /// Whether an export only writes what has changed.
    pub sync: bool,
    pub force: bool,
    /// Whether only extensions whose hash has changed are exported.
    pub incremental_extensions: bool,
}

/// Builds the command lines of `ibcmd`.
pub struct IbcmdBuilder;

/// The beginning of every command.
pub open spec fn base_args(p: IbcmdParams, subgroup: Seq<char>) -> Seq<Seq<char>> {
    seq![p.ibcmd_path@, "infobase"@, subgroup]
}

/// `prefix` with the text behind it, as the only argument.
pub open spec fn arg(prefix: Seq<char>, value: Seq<char>) -> Seq<Seq<char>> {
    seq![prefix + value]
}

/// `prefix` with the text behind it where there is a text.
pub open spec fn opt_arg(prefix: Seq<char>, value: Option<Seq<char>>) -> Seq<Seq<char>> {
    match value {
        Some(v) => arg(prefix, v),
        None => Seq::empty(),
    }
}

/// `prefix` with the text behind it where the text is not empty.
pub open spec fn filled_arg(prefix: Seq<char>, value: Seq<char>) -> Seq<Seq<char>> {
    if value.len() > 0 {
        arg(prefix, value)
    } else {
        Seq::empty()
    }
}

/// The arguments that connect to the database.
pub open spec fn db_args(p: IbcmdParams, c: AppConfig) -> Seq<Seq<char>> {
    if p.use_connection_string {
        arg(
            "--ibconnection=Srvr="@,
            config::or_else(c.server_1c@, c.server@) + ";Ref="@ + c.database@,
        )
    } else {
        let login = if p.db_auth == IbcmdDbAuth::SqlLogin {
            opt_arg("--db-user="@, text::opt_view(p.db_user)) + opt_arg(
                "--db-pwd="@,
                text::opt_view(p.db_pwd),
            )
        } else {
            Seq::empty()
        };
        arg("--db-server="@, c.server@) + arg("--dbms="@, p.dbms@) + arg(
            "--db-name="@,
            config::or_else(c.sql_database@, c.database@),
        ) + login
    }
}

/// The arguments that connect to the database and authorise in the base.
pub open spec fn connection_args(p: IbcmdParams, c: AppConfig) -> Seq<Seq<char>> {
    if c.authentication.auth_type == AuthType::Password {
        db_args(p, c) + filled_arg("--user="@, c.authentication.login@) + filled_arg(
            "--password="@,
            c.authentication.password@,
        )
    } else {
        db_args(p, c)
    }
}

/// The argument with the number of threads, where there is one.
pub open spec fn thread_args(p: IbcmdParams) -> Seq<Seq<char>> {
    if p.jobs > 0 {
        arg("--threads="@, text::dec(p.jobs as nat))
    } else {
        Seq::empty()
    }
}

/// An argument that is there where a flag is set.
pub open spec fn flag_arg(flag: bool, name: Seq<char>) -> Seq<Seq<char>> {
    if flag {
        seq![name]
    } else {
        Seq::empty()
    }
}

/// The export of the main configuration into `output`.
pub open spec fn export_base_args(p: IbcmdParams, c: AppConfig, output: Seq<char>) -> Seq<
    Seq<char>,
> {
    base_args(p, "config"@) + seq!["export"@] + connection_args(p, c) + thread_args(p) + flag_arg(
        p.sync,
        "--sync"@,
    ) + flag_arg(p.force, "--force"@) + seq![output]
}

/// The export of an extension into `output`.
pub open spec fn export_extension_args(
    p: IbcmdParams,
    c: AppConfig,
    name: Seq<char>,
    output: Seq<char>,
) -> Seq<Seq<char>> {
    base_args(p, "config"@) + seq!["export"@] + arg("--extension="@, name) + connection_args(p, c)
        + thread_args(p) + seq![output]
}

/// The list of the extensions.
pub open spec fn list_extensions_args(p: IbcmdParams, c: AppConfig) -> Seq<Seq<char>> {
    base_args(p, "config"@) + seq!["extension"@] + seq!["list"@] + connection_args(p, c)
}

/// The binary copy of the main configuration in `output`.
pub open spec fn save_base_args(p: IbcmdParams, c: AppConfig, output: Seq<char>) -> Seq<Seq<char>> {
    base_args(p, "config"@) + seq!["save"@] + connection_args(p, c) + seq![output]
}

/// The binary copy of an extension in `output`.
pub open spec fn save_extension_args(
    p: IbcmdParams,
    c: AppConfig,
    name: Seq<char>,
    output: Seq<char>,
) -> Seq<Seq<char>> {
    base_args(p, "config"@) + seq!["save"@] + arg("--extension="@, name) + connection_args(p, c)
        + seq![output]
}

/// Appends an argument.
pub(crate) fn put(cmd: &mut Vec<String>, word: &str)
    ensures
        text::views(final(cmd)@) == text::views(old(cmd)@) + seq![word@],
{
    let ghost before = cmd@;
    cmd.push(word.to_owned());
    assert(text::views(cmd@) =~= text::views(before) + seq![word@]);
}

/// Appends `prefix` with a text behind it.
pub(crate) fn put_pair(cmd: &mut Vec<String>, prefix: &str, value: &str)
    ensures
        text::views(final(cmd)@) == text::views(old(cmd)@) + arg(prefix@, value@),
{
    let mut word = prefix.to_owned();
    word.append(value);
    put(cmd, &word);
}

/// Appends `prefix` with a text behind it where there is a text.
fn put_opt(cmd: &mut Vec<String>, prefix: &str, value: &Option<String>)
    ensures
        text::views(final(cmd)@) == text::views(old(cmd)@) + opt_arg(
            prefix@,
            text::opt_view(*value),
        ),
{
    match value {
        Some(v) => put_pair(cmd, prefix, v),
        None => {
            assert(text::views(cmd@) + Seq::<Seq<char>>::empty() =~= text::views(cmd@));
        },
    }
}

/// Appends `prefix` with a text behind it where the text is not empty.
pub(crate) fn put_filled(cmd: &mut Vec<String>, prefix: &str, value: &str)
    ensures
        text::views(final(cmd)@) == text::views(old(cmd)@) + filled_arg(prefix@, value@),
{
    if value.is_empty() {
        assert(text::views(cmd@) + Seq::<Seq<char>>::empty() =~= text::views(cmd@));
    } else {
        put_pair(cmd, prefix, value);
    }
}

/// Appends a word where a flag is set.
fn put_flag(cmd: &mut Vec<String>, flag: bool, word: &str)
    ensures
        text::views(final(cmd)@) == text::views(old(cmd)@) + flag_arg(flag, word@),
{
    if flag {
        put(cmd, word);
    } else {
        assert(text::views(cmd@) + Seq::<Seq<char>>::empty() =~= text::views(cmd@));
    }
}

impl IbcmdBuilder {
    /// The beginning of every command.
    fn base(params: &IbcmdParams, subgroup: &str) -> (r: Vec<String>)
        ensures
            text::views(r@) == base_args(*params, subgroup@),
    {
        text::list3(&params.ibcmd_path, "infobase", subgroup)
    }

    /// Appends the arguments that connect to the database.
    fn add_db_connection(cmd: &mut Vec<String>, params: &IbcmdParams, config: &AppConfig)
        ensures
            text::views(final(cmd)@) == text::views(old(cmd)@) + db_args(*params, *config),
    {
        let ghost start = text::views(cmd@);
        if params.use_connection_string {
            let mut target = config.server_for_1c().to_owned();
            target.append(";Ref=");
            target.append(&config.database);
            put_pair(cmd, "--ibconnection=Srvr=", &target);
        } else {
            put_pair(cmd, "--db-server=", &config.server);
            put_pair(cmd, "--dbms=", &params.dbms);
            put_pair(cmd, "--db-name=", config.sql_database_name());
            if params.db_auth == IbcmdDbAuth::SqlLogin {
                put_opt(cmd, "--db-user=", &params.db_user);
                put_opt(cmd, "--db-pwd=", &params.db_pwd);
            }
            assert(text::views(cmd@) =~= start + db_args(*params, *config));
        }
    }

    /// Appends the arguments that connect to the database and authorise in
    /// the base.
    fn add_connection(cmd: &mut Vec<String>, params: &IbcmdParams, config: &AppConfig)
        ensures
            text::views(final(cmd)@) == text::views(old(cmd)@) + connection_args(*params, *config),
    {
        let ghost start = text::views(cmd@);
        Self::add_db_connection(cmd, params, config);
        if config.authentication.auth_type == AuthType::Password {
            put_filled(cmd, "--user=", &config.authentication.login);
            put_filled(cmd, "--password=", &config.authentication.password);
            assert(text::views(cmd@) =~= start + connection_args(*params, *config));
        }
    }

    /// Appends the number of threads, where there is one.
    fn add_threads(cmd: &mut Vec<String>, params: &IbcmdParams)
        ensures
            text::views(final(cmd)@) == text::views(old(cmd)@) + thread_args(*params),
    {
        if params.jobs > 0 {
            let number = text::dec_of(params.jobs as u64);
            put_pair(cmd, "--threads=", &number);
        } else {
            assert(text::views(cmd@) + Seq::<Seq<char>>::empty() =~= text::views(cmd@));
        }
    }

    /// The export of the main configuration into `output`.
    pub fn export_base_to(params: &IbcmdParams, config: &AppConfig, output: &str) -> (r: Vec<
        String,
    >)
        ensures
            text::views(r@) == export_base_args(*params, *config, output@),
    {
        let mut cmd = Self::base(params, "config");
        put(&mut cmd, "export");
        Self::add_connection(&mut cmd, params, config);
        Self::add_threads(&mut cmd, params);
        put_flag(&mut cmd, params.sync, "--sync");
        put_flag(&mut cmd, params.force, "--force");
        put(&mut cmd, output);
        cmd
    }

    /// The export of the main configuration into the directory `base` of the
    /// output directory.
    pub fn export_base(params: &IbcmdParams, config: &AppConfig) -> (r: Vec<String>)
        ensures
            exists|output: Seq<char>|
                paths::is_joined(output, config.output_path@, "base"@) && text::views(r@)
                    == #[trigger] export_base_args(*params, *config, output),
    {
        let output = paths::join(&config.output_path, "base");
        Self::export_base_to(params, config, &output)
    }

    /// The export of an extension into `output`.
    pub fn export_extension_to(
        params: &IbcmdParams,
        config: &AppConfig,
        ext_name: &str,
        output: &str,
    ) -> (r: Vec<String>)
        ensures
            text::views(r@) == export_extension_args(*params, *config, ext_name@, output@),
    {
        let mut cmd = Self::base(params, "config");
        put(&mut cmd, "export");
        put_pair(&mut cmd, "--extension=", ext_name);
        Self::add_connection(&mut cmd, params, config);
        Self::add_threads(&mut cmd, params);
        put(&mut cmd, output);
        cmd
    }

    /// The export of an extension into its directory under `extensions` of the
    /// output directory.
    pub fn export_extension(params: &IbcmdParams, config: &AppConfig, ext_name: &str) -> (r: Vec<
        String,
    >)
        ensures
            exists|output: Seq<char>|
                paths::is_below(output, config.output_path@, "extensions"@, ext_name@)
                    && text::views(r@) == #[trigger] export_extension_args(
                    *params,
                    *config,
                    ext_name@,
                    output,
                ),
    {
        let dir = paths::join(&config.output_path, "extensions");
        let output = paths::join(&dir, ext_name);
        Self::export_extension_to(params, config, ext_name, &output)
    }

    /// The list of the extensions.
    pub fn list_extensions(params: &IbcmdParams, config: &AppConfig) -> (r: Vec<String>)
        ensures
            text::views(r@) == list_extensions_args(*params, *config),
    {
        let mut cmd = Self::base(params, "config");
        put(&mut cmd, "extension");
        put(&mut cmd, "list");
        Self::add_connection(&mut cmd, params, config);
        cmd
    }

    /// The binary copy of the main configuration in `output`.
    pub fn save_base_to(params: &IbcmdParams, config: &AppConfig, output: &str) -> (r: Vec<String>)
        ensures
            text::views(r@) == save_base_args(*params, *config, output@),
    {
        let mut cmd = Self::base(params, "config");
        put(&mut cmd, "save");
        Self::add_connection(&mut cmd, params, config);
        put(&mut cmd, output);
        cmd
    }

    /// The binary copy of the main configuration, `_artifacts/base.cf` of the
    /// output directory.
    pub fn save_base(params: &IbcmdParams, config: &AppConfig) -> (r: Vec<String>)
        ensures
            exists|output: Seq<char>|
                paths::is_below(output, config.output_path@, "_artifacts"@, "base.cf"@)
                    && text::views(r@) == #[trigger] save_base_args(*params, *config, output),
    {
        let dir = paths::join(&config.output_path, "_artifacts");
        let output = paths::join(&dir, "base.cf");
        Self::save_base_to(params, config, &output)
    }

    /// The binary copy of an extension in `output`.
    pub fn save_extension_to(
        params: &IbcmdParams,
        config: &AppConfig,
        ext_name: &str,
        output: &str,
    ) -> (r: Vec<String>)
        ensures
            text::views(r@) == save_extension_args(*params, *config, ext_name@, output@),
    {
        let mut cmd = Self::base(params, "config");
        put(&mut cmd, "save");
        put_pair(&mut cmd, "--extension=", ext_name);
        Self::add_connection(&mut cmd, params, config);
        put(&mut cmd, output);
        cmd
    }

    /// The binary copy of an extension, a file under `_artifacts/extensions`
    /// of the output directory.
    pub fn save_extension(params: &IbcmdParams, config: &AppConfig, ext_name: &str) -> (r: Vec<
        String,
    >)
        ensures
            exists|output: Seq<char>|
                paths::is_far_below(
                    output,
                    config.output_path@,
                    "_artifacts"@,
                    "extensions"@,
                    ext_name@ + ".cfe"@,
                ) && text::views(r@) == #[trigger] save_extension_args(
                    *params,
                    *config,
                    ext_name@,
                    output,
                ),
    {
        let top = paths::join(&config.output_path, "_artifacts");
        let dir = paths::join(&top, "extensions");
        let mut file = ext_name.to_owned();
        file.append(".cfe");
        let output = paths::join(&dir, &file);
        assert(paths::is_below(output@, top@, "extensions"@, file@));
        Self::save_extension_to(params, config, ext_name, &output)
    }
}

// Laws.

/// An argument says how the database is reached or who authorises there.
pub open spec fn is_connection_arg(p: IbcmdParams, c: AppConfig, a: Seq<char>) -> bool {
    let server = if c.server_1c@.len() > 0 {
        c.server_1c@
    } else {
        c.server@
    };
    let name = if c.sql_database@.len() > 0 {
        c.sql_database@
    } else {
        c.database@
    };
    ||| p.use_connection_string && a == "--ibconnection=Srvr="@ + server + ";Ref="@ + c.database@
    ||| !p.use_connection_string && a == "--db-server="@ + c.server@
    ||| !p.use_connection_string && a == "--dbms="@ + p.dbms@
    ||| !p.use_connection_string && a == "--db-name="@ + name
    ||| !p.use_connection_string && p.db_auth == IbcmdDbAuth::SqlLogin && p.db_user is Some && a
        == "--db-user="@ + p.db_user->Some_0@
    ||| !p.use_connection_string && p.db_auth == IbcmdDbAuth::SqlLogin && p.db_pwd is Some && a
        == "--db-pwd="@ + p.db_pwd->Some_0@
    ||| c.authentication.auth_type == AuthType::Password && c.authentication.login@.len() > 0 && a
        == "--user="@ + c.authentication.login@
    ||| c.authentication.auth_type == AuthType::Password && c.authentication.password@.len() > 0
        && a == "--password="@ + c.authentication.password@
}

#[verifier::rlimit(40)]
proof fn lemma_connection_args(p: IbcmdParams, c: AppConfig, a: Seq<char>)
    ensures
        connection_args(p, c).contains(a) <==> is_connection_arg(p, c, a),
{
    let d = db_args(p, c);
    let all = connection_args(p, c);
    let server = config::or_else(c.server_1c@, c.server@);
    let whole = "--ibconnection=Srvr="@ + server + ";Ref="@ + c.database@;
    assert("--ibconnection=Srvr="@ + (server + ";Ref="@ + c.database@) =~= whole);
    let u = text::opt_view(p.db_user);
    let w = text::opt_view(p.db_pwd);
    let sql = p.db_auth == IbcmdDbAuth::SqlLogin;
    if p.use_connection_string {
        assert(d[0] == whole);
    } else {
        assert(d[0] == "--db-server="@ + c.server@);
        assert(d[1] == "--dbms="@ + p.dbms@);
        assert(d[2] == "--db-name="@ + config::or_else(c.sql_database@, c.database@));
        if sql && u is Some {
            assert(d[3] == "--db-user="@ + u->Some_0);
        }
        if sql && w is Some {
            assert(d[d.len() - 1] == "--db-pwd="@ + w->Some_0);
        }
    }
    assert forall|i: int| 0 <= i < d.len() implies all[i] == #[trigger] d[i] by {}
    let pass = c.authentication.auth_type == AuthType::Password;
    let n = d.len() as int;
    if pass && c.authentication.login@.len() > 0 {
        assert(all[n] == "--user="@ + c.authentication.login@);
    }
    if pass && c.authentication.password@.len() > 0 {
        assert(all[all.len() - 1] == "--password="@ + c.authentication.password@);
    }
    if is_connection_arg(p, c, a) {
        assert(all.contains(a));
    }
    if all.contains(a) {
        let i = all.index_of(a);
        if i < n {
            assert(d[i] == a);
        }
    }
}

/// No argument that connects begins like the choice of an extension.
#[verifier::rlimit(40)]
proof fn lemma_no_extension(p: IbcmdParams, c: AppConfig, a: Seq<char>)
    requires
        is_connection_arg(p, c, a),
    ensures
        !text::starts(a, "--extension="@),
{
    reveal_strlit("--extension=");
    reveal_strlit("--ibconnection=Srvr=");
    reveal_strlit("--db-server=");
    reveal_strlit("--dbms=");
    reveal_strlit("--db-name=");
    reveal_strlit("--db-user=");
    reveal_strlit("--db-pwd=");
    reveal_strlit("--user=");
    reveal_strlit("--password=");
    assert(a[2] == 'i' || a[2] == 'd' || a[2] == 'u' || a[2] == 'p');
    if text::starts(a, "--extension="@) {
        assert(a.take(12)[2] == a[2]);
        assert("--extension="@[2] == 'e');
    }
}

/// The export of an extension and its binary copy choose it by its name: behind
/// the operation stands `--extension=` with the name, and the last argument is
/// the place of the output. Between them stands how the base is reached, and in
/// an export the number of threads, nothing else.
#[verifier::rlimit(40)]
pub proof fn extension_is_chosen_by_its_name(
    p: IbcmdParams,
    c: AppConfig,
    name: Seq<char>,
    output: Seq<char>,
    i: int,
)
    ensures
        ({
            let e = export_extension_args(p, c, name, output);
            let s = save_extension_args(p, c, name, output);
            &&& e.len() > 5 && s.len() > 5
            &&& e[0] == p.ibcmd_path@ && e[1] == "infobase"@ && e[2] == "config"@ && e[3]
                == "export"@
            &&& s[0] == p.ibcmd_path@ && s[1] == "infobase"@ && s[2] == "config"@ && s[3]
                == "save"@
            &&& e[4] == "--extension="@ + name && s[4] == "--extension="@ + name
            &&& e.last() == output && s.last() == output
            &&& 5 <= i < e.len() - 1 ==> is_connection_arg(p, c, e[i]) || (p.jobs > 0 && e[i]
                == "--threads="@ + text::dec(p.jobs as nat))
            &&& 5 <= i < s.len() - 1 ==> is_connection_arg(p, c, s[i])
        }),
{
    let e = export_extension_args(p, c, name, output);
    let s = save_extension_args(p, c, name, output);
    let k = connection_args(p, c);
    lemma_connection_args(p, c, k[0]);
    assert(k.len() >= 1);
    if 5 <= i < e.len() - 1 && i - 5 < k.len() {
        assert(e[i] == k[i - 5]);
        assert(k.contains(k[i - 5]));
        lemma_connection_args(p, c, k[i - 5]);
    }
    if 5 <= i < s.len() - 1 {
        assert(s[i] == k[i - 5]);
        assert(k.contains(k[i - 5]));
        lemma_connection_args(p, c, k[i - 5]);
    }
}

/// The export of the main configuration and its binary copy choose no
/// extension: no argument between the program and the place of the output begins
/// with `--extension=`. Changes alone are written, and files overwritten, where
/// that is asked for, and only then.
#[verifier::rlimit(40)]
pub proof fn configuration_is_exported_without_extensions(
    p: IbcmdParams,
    c: AppConfig,
    output: Seq<char>,
    i: int,
)
    ensures
        ({
            let e = export_base_args(p, c, output);
            let s = save_base_args(p, c, output);
            let l = list_extensions_args(p, c);
            &&& e[0] == p.ibcmd_path@ && e[1] == "infobase"@ && e[2] == "config"@ && e[3]
                == "export"@
            &&& s[0] == p.ibcmd_path@ && s[1] == "infobase"@ && s[2] == "config"@ && s[3]
                == "save"@
            &&& l[0] == p.ibcmd_path@ && l[1] == "infobase"@ && l[2] == "config"@ && l[3]
                == "extension"@ && l[4] == "list"@
            &&& e.last() == output && s.last() == output
            &&& 1 <= i < e.len() - 1 ==> !text::starts(e[i], "--extension="@)
            &&& 1 <= i < s.len() - 1 ==> !text::starts(s[i], "--extension="@)
            &&& 4 <= i < e.len() - 1 ==> is_connection_arg(p, c, e[i]) || (p.jobs > 0 && e[i]
                == "--threads="@ + text::dec(p.jobs as nat)) || (p.sync && e[i] == "--sync"@) || (
            p.force && e[i] == "--force"@)
            &&& 4 <= i < s.len() - 1 ==> is_connection_arg(p, c, s[i])
            &&& 5 <= i < l.len() ==> is_connection_arg(p, c, l[i])
            &&& p.sync ==> e.contains("--sync"@)
            &&& p.force ==> e.contains("--force"@)
        }),
{
    let e = export_base_args(p, c, output);
    let s = save_base_args(p, c, output);
    let l = list_extensions_args(p, c);
    let k = connection_args(p, c);
    let n = k.len() as int;
    let t = thread_args(p).len() as int;
    reveal_strlit("infobase");
    reveal_strlit("config");
    reveal_strlit("export");
    reveal_strlit("save");
    reveal_strlit("--extension=");
    reveal_strlit("--threads=");
    reveal_strlit("--sync");
    reveal_strlit("--force");
    if p.sync {
        assert(e[4 + n + t] == "--sync"@);
    }
    if p.force {
        assert(e[e.len() - 2] == "--force"@);
    }
    assert forall|j: int| 0 <= j < n implies is_connection_arg(p, c, #[trigger] k[j]) by {
        assert(k.contains(k[j]));
        lemma_connection_args(p, c, k[j]);
    }
    if 4 <= i < e.len() - 1 && i - 4 < n {
        assert(e[i] == k[i - 4]);
        lemma_no_extension(p, c, k[i - 4]);
    }
    if 4 <= i < s.len() - 1 {
        assert(s[i] == k[i - 4]);
        lemma_no_extension(p, c, k[i - 4]);
    }
    if 5 <= i < l.len() {
        assert(l[i] == k[i - 5]);
    }
    if 1 <= i < e.len() - 1 && text::starts(e[i], "--extension="@) {
        let x = "--extension="@;
        assert(e[i].take(12)[0] == e[i][0] && e[i].take(12)[2] == e[i][2]);
        assert(x[0] == '-' && x[2] == 'e');
        if i < 4 {
            assert(e[i][0] == 'i' || e[i][0] == 'c' || e[i][0] == 'e');
        } else if i - 4 >= n {
            assert(e[i][2] == 't' || e[i][2] == 's' || e[i][2] == 'f');
        }
    }
    if 1 <= i < s.len() - 1 && i < 4 && text::starts(s[i], "--extension="@) {
        assert(s[i].take(12)[0] == s[i][0]);
        assert(s[i][0] == 'i' || s[i][0] == 'c' || s[i][0] == 's');
    }
}

/// Every command that works in the base reaches it: it has each argument that
/// the settings of the connection ask for.
pub proof fn every_command_connects(
    p: IbcmdParams,
    c: AppConfig,
    name: Seq<char>,
    output: Seq<char>,
    a: Seq<char>,
)
    requires
        is_connection_arg(p, c, a),
    ensures
        export_base_args(p, c, output).contains(a),
        export_extension_args(p, c, name, output).contains(a),
        list_extensions_args(p, c).contains(a),
        save_base_args(p, c, output).contains(a),
        save_extension_args(p, c, name, output).contains(a),
{
    lemma_connection_args(p, c, a);
    let j = connection_args(p, c).index_of(a);
    assert(export_base_args(p, c, output)[4 + j] == a);
    assert(export_extension_args(p, c, name, output)[5 + j] == a);
    assert(list_extensions_args(p, c)[5 + j] == a);
    assert(save_base_args(p, c, output)[4 + j] == a);
    assert(save_extension_args(p, c, name, output)[5 + j] == a);
}

/// An export uses the number of threads that was asked for.
pub proof fn export_has_its_threads(
    p: IbcmdParams,
    c: AppConfig,
    name: Seq<char>,
    output: Seq<char>,
)
    requires
        p.jobs > 0,
    ensures
        export_base_args(p, c, output).contains("--threads="@ + text::dec(p.jobs as nat)),
        export_extension_args(p, c, name, output).contains(
            "--threads="@ + text::dec(p.jobs as nat),
        ),
{
    let n = connection_args(p, c).len() as int;
    assert(export_base_args(p, c, output)[4 + n] == "--threads="@ + text::dec(p.jobs as nat));
    assert(export_extension_args(p, c, name, output)[5 + n] == "--threads="@ + text::dec(
        p.jobs as nat,
    ));
}

/// The commands of two extensions differ in more than the place of the output.
pub proof fn extensions_have_commands_of_their_own(
    p: IbcmdParams,
    c: AppConfig,
    a: Seq<char>,
    b: Seq<char>,
    x: Seq<char>,
    y: Seq<char>,
)
    requires
        a != b,
    ensures
        export_extension_args(p, c, a, x).drop_last() != export_extension_args(
            p,
            c,
            b,
            y,
        ).drop_last(),
        save_extension_args(p, c, a, x).drop_last() != save_extension_args(p, c, b, y).drop_last(),
{
    let e = export_extension_args(p, c, a, x);
    let f = export_extension_args(p, c, b, y);
    let s = save_extension_args(p, c, a, x);
    let t = save_extension_args(p, c, b, y);
    let pre = "--extension="@;
    let n = pre.len() as int;
    extension_is_chosen_by_its_name(p, c, a, x, 0);
    extension_is_chosen_by_its_name(p, c, b, y, 0);
    if pre + a == pre + b {
        assert((pre + a).skip(n) =~= a);
        assert((pre + b).skip(n) =~= b);
    }
    assert(e.drop_last()[4] == pre + a);
    assert(f.drop_last()[4] == pre + b);
    assert(s.drop_last()[4] == pre + a);
    assert(t.drop_last()[4] == pre + b);
}

/// The command that exports an extension has the argument that chooses it, as
/// `--extension=` with its name, and ends with the place of the output; that of
/// its binary copy too.
pub proof fn command_of_an_extension_names_it(
    params: &IbcmdParams,
    config: &AppConfig,
    name: &str,
    output: &str,
    export: Vec<String>,
    save: Vec<String>,
)
    requires
        call_ensures(IbcmdBuilder::export_extension_to, (params, config, name, output), export),
        call_ensures(IbcmdBuilder::save_extension_to, (params, config, name, output), save),
    ensures
        text::views(export@).contains("--extension="@ + name@),
        text::views(export@).contains("export"@),
        text::views(export@).last() == output@,
        text::views(save@).contains("--extension="@ + name@),
        text::views(save@).contains("save"@),
        text::views(save@).last() == output@,
{
    extension_is_chosen_by_its_name(*params, *config, name@, output@, 0);
    let e = text::views(export@);
    let s = text::views(save@);
    assert(e[4] == "--extension="@ + name@ && e[3] == "export"@);
    assert(s[4] == "--extension="@ + name@ && s[3] == "save"@);
}

/// The command that exports the main configuration has no argument that begins
/// with `--extension=` between the program and the place of the output, nor has
/// that of its binary copy.
pub proof fn command_of_the_configuration_names_no_extension(
    params: &IbcmdParams,
    config: &AppConfig,
    output: &str,
    export: Vec<String>,
    save: Vec<String>,
    i: int,
)
    requires
        call_ensures(IbcmdBuilder::export_base_to, (params, config, output), export),
        call_ensures(IbcmdBuilder::save_base_to, (params, config, output), save),
    ensures
        1 <= i < export@.len() - 1 ==> !text::starts(export@[i]@, "--extension="@),
        1 <= i < save@.len() - 1 ==> !text::starts(save@[i]@, "--extension="@),
        text::views(export@).contains("export"@) && text::views(export@).last() == output@,
        text::views(save@).contains("save"@) && text::views(save@).last() == output@,
{
    configuration_is_exported_without_extensions(*params, *config, output@, i);
    let e = text::views(export@);
    let s = text::views(save@);
    assert(e.len() == export@.len() && s.len() == save@.len());
    assert(e[3] == "export"@ && s[3] == "save"@);
    if 1 <= i < export@.len() - 1 {
        assert(e[i] == export@[i]@);
    }
    if 1 <= i < save@.len() - 1 {
        assert(s[i] == save@[i]@);
    }
}

/// The commands of two extensions differ in more than the place of the output.
pub proof fn commands_of_extensions_differ(
    params: &IbcmdParams,
    config: &AppConfig,
    a: &str,
    b: &str,
    x: &str,
    y: &str,
    first: Vec<String>,
    second: Vec<String>,
)
    requires
        a@ != b@,
        call_ensures(IbcmdBuilder::export_extension_to, (params, config, a, x), first),
        call_ensures(IbcmdBuilder::export_extension_to, (params, config, b, y), second),
    ensures
        text::views(first@).drop_last() != text::views(second@).drop_last(),
{
    extensions_have_commands_of_their_own(*params, *config, a@, b@, x@, y@);
}

} // verus!
