//! The register of bases under observation: its defaults, its validation and
//! the search for a base by its output directory.

use vstd::prelude::*;

use crate::text;

verus! {

/// The settings of the observation and the bases under it.
#[derive(Debug, Clone)]
pub struct DaemonConfig {
    /// Minutes between two rounds.
    pub check_interval_minutes: u64,
    /// Hours that the first round looks back.
    pub lookback_hours_first_run: u64,
    /// The address of the cache proxy, where there is one to flush.
    pub cache_proxy_url: Option<String>,
    /// Days after which the storage mapping is fetched again.
    pub refetch_storage_mapping_after_days: u64,
    pub state_dir: String,
    pub log_dir: String,
    pub log_level: String,
    /// The events of a base that start an export.
    pub trigger_events: Vec<String>,
    /// The metadata name of the catalogue of processors; empty for the usual one.
    pub processings_meta_name: String,
    pub bases: Vec<BaseEntry>,
}

/// How the changes of a base are found.
#[derive(Debug, Clone, Copy, PartialEq, Eq, Structural)]
pub enum ChangeDetection {
    /// From the service tables of the database.
    Sql,
    /// From the event log, through the service inside the base.
    Eventlog,
}

impl Default for ChangeDetection {
    fn default() -> (r: Self)
        ensures
            r == ChangeDetection::Sql,
    {
        ChangeDetection::Sql
    }
}

/// The settings of one base.
#[derive(Debug, Clone)]
pub struct BaseEntry {
    pub alias: String,
    pub sql_server: String,
    pub sql_database: String,
    pub server_1c: String,
    pub ibcmd_db_auth_windows: bool,
    pub db_user: Option<String>,
    pub db_pwd: Option<String>,
    pub change_detection: ChangeDetection,
    pub mcp_url: String,
    pub mcp_api_key: String,
    pub login: String,
    pub password: String,
    pub ibcmd_path: String,
    pub output_path: String,
    pub git_auth_type: String,
    pub git_user: Option<String>,
    pub git_password: Option<String>,
    pub git_remote_url: String,
    pub git_autocrlf: String,
    pub export_base: bool,
    pub export_extensions: bool,
    pub export_processings: bool,
    pub save_artifacts: bool,
    pub ibcmd_sync: bool,
    pub ibcmd_incremental: bool,
    pub processings_incremental: bool,
    pub ibcmd_jobs: Option<u32>,
    pub git_gc_after_push: bool,
    pub git_gc_aggressive: bool,
}

// Defaults.

pub fn default_check_interval_minutes() -> (r: u64)
    ensures
        r == 30,
{
    30
}

pub fn default_lookback_first_run() -> (r: u64)
    ensures
        r == 168,
{
    168
}

pub fn default_refetch_storage() -> (r: u64)
    ensures
        r == 30,
{
    30
}

pub fn default_state_dir() -> (r: String)
    ensures
        r@ == "./state"@,
{
    "./state".to_owned()
}

pub fn default_log_dir() -> (r: String)
    ensures
        r@ == "./logs"@,
{
    "./logs".to_owned()
}

pub fn default_log_level() -> (r: String)
    ensures
        r@ == "info"@,
{
    "info".to_owned()
}

pub fn default_git_auth() -> (r: String)
    ensures
        r@ == "domain"@,
{
    "domain".to_owned()
}

pub fn default_git_autocrlf() -> (r: String)
    ensures
        r@ == "false"@,
{
    "false".to_owned()
}

/// The events that start an export: the configuration was applied to the
/// database, or an extension was added, changed or deleted.
pub fn default_trigger_events() -> (r: Vec<String>)
    ensures
        text::views(r@) == seq![
            "_$InfoBase$_.DBConfigUpdate"@,
            "_$InfoBase$_.DBConfigExtensionInsert"@,
            "_$InfoBase$_.DBConfigExtensionUpdate"@,
            "_$InfoBase$_.DBConfigExtensionDelete"@,
        ],
{
    text::list4(
        "_$InfoBase$_.DBConfigUpdate",
        "_$InfoBase$_.DBConfigExtensionInsert",
        "_$InfoBase$_.DBConfigExtensionUpdate",
        "_$InfoBase$_.DBConfigExtensionDelete",
    )
}

impl BaseEntry {
    /// A base with the settings that have no default; the others have theirs.
    pub fn new(
        alias: String,
        sql_server: String,
        sql_database: String,
        login: String,
        password: String,
        ibcmd_path: String,
        output_path: String,
    ) -> (r: BaseEntry)
        ensures
            r.alias == alias,
            r.sql_server == sql_server,
            r.sql_database == sql_database,
            r.login == login,
            r.password == password,
            r.ibcmd_path == ibcmd_path,
            r.output_path == output_path,
            r.server_1c@.len() == 0,
            r.mcp_url@.len() == 0,
            r.mcp_api_key@.len() == 0,
            r.git_remote_url@.len() == 0,
            r.git_auth_type@ == "domain"@,
            r.git_autocrlf@ == "false"@,
            r.change_detection == ChangeDetection::Sql,
            r.db_user is None && r.db_pwd is None && r.git_user is None && r.git_password is None,
            r.ibcmd_jobs is None,
            r.ibcmd_db_auth_windows && r.export_base && r.export_extensions,
            r.ibcmd_sync && r.ibcmd_incremental && r.processings_incremental,
            !r.export_processings && !r.save_artifacts,
            !r.git_gc_after_push && !r.git_gc_aggressive,
    {
        BaseEntry {
            alias,
            sql_server,
            sql_database,
            server_1c: String::new(),
            ibcmd_db_auth_windows: true,
            db_user: None,
            db_pwd: None,
            change_detection: ChangeDetection::Sql,
            mcp_url: String::new(),
            mcp_api_key: String::new(),
            login,
            password,
            ibcmd_path,
            output_path,
            git_auth_type: default_git_auth(),
            git_user: None,
            git_password: None,
            git_remote_url: String::new(),
            git_autocrlf: default_git_autocrlf(),
            export_base: true,
            export_extensions: true,
            export_processings: false,
            save_artifacts: false,
            ibcmd_sync: true,
            ibcmd_incremental: true,
            processings_incremental: true,
            ibcmd_jobs: None,
            git_gc_after_push: false,
            git_gc_aggressive: false,
        }
    }
}

impl DaemonConfig {
    /// A register of the given bases, with every other setting at its default.
    pub fn new(bases: Vec<BaseEntry>) -> (r: DaemonConfig)
        ensures
            r.bases == bases,
            r.check_interval_minutes == 30,
            r.lookback_hours_first_run == 168,
            r.refetch_storage_mapping_after_days == 30,
            r.cache_proxy_url is None,
            r.state_dir@ == "./state"@,
            r.log_dir@ == "./logs"@,
            r.log_level@ == "info"@,
            r.processings_meta_name@.len() == 0,
            text::views(r.trigger_events@) == seq![
                "_$InfoBase$_.DBConfigUpdate"@,
                "_$InfoBase$_.DBConfigExtensionInsert"@,
                "_$InfoBase$_.DBConfigExtensionUpdate"@,
                "_$InfoBase$_.DBConfigExtensionDelete"@,
            ],
    {
        DaemonConfig {
            check_interval_minutes: default_check_interval_minutes(),
            lookback_hours_first_run: default_lookback_first_run(),
            cache_proxy_url: None,
            refetch_storage_mapping_after_days: default_refetch_storage(),
            state_dir: default_state_dir(),
            log_dir: default_log_dir(),
            log_level: default_log_level(),
            trigger_events: default_trigger_events(),
            processings_meta_name: String::new(),
            bases,
        }
    }
}

// Validation.

/// The value of `core.autocrlf` is one that git takes, or empty.
pub open spec fn autocrlf_ok(value: Seq<char>) -> bool {
    let v = text::trim(value);
    v == ""@ || v == "false"@ || v == "true"@ || v == "input"@
}

/// Whether a value of `core.autocrlf` is allowed: `false`, `true`, `input` or
/// nothing.
pub fn is_valid_git_autocrlf(value: &str) -> (r: bool)
    ensures
        r == autocrlf_ok(value@),
{
    let v = text::trimmed(value);
    text::same(&v, "") || text::same(&v, "false") || text::same(&v, "true") || text::same(
        &v,
        "input",
    )
}

/// The text says nothing.
pub open spec fn blank(s: Seq<char>) -> bool {
    text::trim(s).len() == 0
}

/// A message about one base.
pub open spec fn about(alias: Seq<char>, what: Seq<char>) -> Seq<char> {
    "alias '"@ + alias + what
}

/// Some base before the place `i` has the alias of the base there.
pub open spec fn alias_taken(bases: Seq<BaseEntry>, i: int) -> bool {
    exists|j: int| 0 <= j < i && (#[trigger] bases[j]).alias@ == bases[i].alias@
}

/// What is wrong with the base at the place `i`: the first complaint that
/// applies.
pub open spec fn base_error(bases: Seq<BaseEntry>, i: int) -> Option<Seq<char>> {
    let b = bases[i];
    if blank(b.alias@) {
        Some("найдена запись bases[] с пустым alias"@)
    } else if alias_taken(bases, i) {
        Some(about(b.alias@, "' встречается дважды в bases[]"@))
    } else if blank(b.output_path@) {
        Some(about(b.alias@, "': outputPath пустой (это и каталог выгрузки, и git-репо)"@))
    } else if blank(b.sql_server@) {
        Some(about(b.alias@, "': sqlServer пустой"@))
    } else if b.change_detection == ChangeDetection::Eventlog && (blank(b.mcp_url@) || blank(
        b.mcp_api_key@,
    )) {
        Some(about(b.alias@, "': changeDetection=eventlog требует mcpUrl и mcpApiKey"@))
    } else if blank(b.ibcmd_path@) {
        Some(about(b.alias@, "': ibcmdPath пустой"@))
    } else if blank(b.login@) {
        Some(about(b.alias@, "': login пустой"@))
    } else if b.git_auth_type@ == "password"@ && (b.git_user is None || b.git_password is None) {
        Some(about(b.alias@, "': git_auth_type=password требует git_user и git_password"@))
    } else if !autocrlf_ok(b.git_autocrlf@) {
        Some(
            about(b.alias@, "': gitAutocrlf='"@) + b.git_autocrlf@
                + "' — допустимы false, true, input или пустая строка"@,
        )
    } else if !b.ibcmd_db_auth_windows && (b.db_user is None || b.db_pwd is None) {
        Some(about(b.alias@, "': ibcmd_db_auth_windows=false требует db_user и db_pwd"@))
    } else {
        None
    }
}

/// What is wrong with the first base at or after the place `i` that has a
/// fault.
pub open spec fn first_error(bases: Seq<BaseEntry>, i: int) -> Option<Seq<char>>
    decreases bases.len() - i,
{
    if i < 0 || i >= bases.len() {
        None
    } else if base_error(bases, i) is Some {
        base_error(bases, i)
    } else {
        first_error(bases, i + 1)
    }
}

/// What is wrong with a register.
pub open spec fn register_error(bases: Seq<BaseEntry>) -> Option<Seq<char>> {
    if bases.len() == 0 {
        Some("bases[] пустой — нечего наблюдать"@)
    } else {
        first_error(bases, 0)
    }
}

/// Whether a text says nothing.
fn is_blank(s: &str) -> (r: bool)
    ensures
        r == blank(s@),
{
    text::trimmed(s).as_str().is_empty()
}

/// A message about one base.
fn message_about(alias: &str, what: &str) -> (r: String)
    ensures
        r@ == about(alias@, what@),
{
    let mut m = "alias '".to_owned();
    m.append(alias);
    m.append(what);
    m
}

/// What is wrong with the base at the place `i`.
fn check_base(bases: &Vec<BaseEntry>, i: usize) -> (r: Option<String>)
    requires
        i < bases@.len(),
    ensures
        text::opt_view(r) == base_error(bases@, i as int),
{
    let b = &bases[i];
    if is_blank(&b.alias) {
        return Some("найдена запись bases[] с пустым alias".to_owned());
    }
    let mut taken = false;
    for j in 0..i
        invariant
            i < bases@.len(),
            *b == bases@[i as int],
            taken == exists|k: int| 0 <= k < j && (#[trigger] bases@[k]).alias@ == b.alias@,
    {
        if text::same(&bases[j].alias, &b.alias) {
            assert(bases@[j as int].alias@ == b.alias@);
            taken = true;
        }
    }
    if taken {
        return Some(message_about(&b.alias, "' встречается дважды в bases[]"));
    }
    if is_blank(&b.output_path) {
        return Some(
            message_about(
                &b.alias,
                "': outputPath пустой (это и каталог выгрузки, и git-репо)",
            ),
        );
    }
    if is_blank(&b.sql_server) {
        return Some(message_about(&b.alias, "': sqlServer пустой"));
    }
    if b.change_detection == ChangeDetection::Eventlog && (is_blank(&b.mcp_url) || is_blank(
        &b.mcp_api_key,
    )) {
        return Some(
            message_about(&b.alias, "': changeDetection=eventlog требует mcpUrl и mcpApiKey"),
        );
    }
    if is_blank(&b.ibcmd_path) {
        return Some(message_about(&b.alias, "': ibcmdPath пустой"));
    }
    if is_blank(&b.login) {
        return Some(message_about(&b.alias, "': login пустой"));
    }
    if text::same(&b.git_auth_type, "password") && (b.git_user.is_none()
        || b.git_password.is_none()) {
        return Some(
            message_about(
                &b.alias,
                "': git_auth_type=password требует git_user и git_password",
            ),
        );
    }
    if !is_valid_git_autocrlf(&b.git_autocrlf) {
        let mut m = message_about(&b.alias, "': gitAutocrlf='");
        m.append(&b.git_autocrlf);
        m.append("' — допустимы false, true, input или пустая строка");
        return Some(m);
    }
    if !b.ibcmd_db_auth_windows && (b.db_user.is_none() || b.db_pwd.is_none()) {
        return Some(
            message_about(
                &b.alias,
                "': ibcmd_db_auth_windows=false требует db_user и db_pwd",
            ),
        );
    }
    None
}

impl DaemonConfig {
    /// Checks the register: there are bases, their aliases differ, and each
    /// has the settings that its ways of working need.
    pub fn validate(&self) -> (r: Result<(), String>)
        ensures
            match register_error(self.bases@) {
                Some(e) => r matches Err(m) && m@ == e,
                None => r is Ok,
            },
    {
        if self.bases.len() == 0 {
            return Err("bases[] пустой — нечего наблюдать".to_owned());
        }
        let n: usize = self.bases.len();
        let mut i: usize = 0;
        while i < n
            invariant
                n == self.bases@.len(),
                i <= n,
                first_error(self.bases@, 0) == first_error(self.bases@, i as int),
            decreases n - i,
        {
            if let Some(m) = check_base(&self.bases, i) {
                return Err(m);
            }
            i = i + 1;
        }
        Ok(())
    }
}

/// In a valid register no two bases share an alias, and none has a blank one.
pub proof fn valid_aliases_are_distinct(bases: Seq<BaseEntry>)
    requires
        register_error(bases) is None,
    ensures
        forall|i: int, j: int|
            0 <= i < j < bases.len() ==> (#[trigger] bases[i]).alias@ != (
            #[trigger] bases[j]).alias@,
        forall|i: int| 0 <= i < bases.len() ==> !blank((#[trigger] bases[i]).alias@),
{
    assert forall|i: int| 0 <= i < bases.len() implies base_error(bases, i) is None by {
        lemma_no_error(bases, 0, i);
    }
    assert forall|i: int, j: int| 0 <= i < j < bases.len() implies (#[trigger] bases[i]).alias@ != (
    #[trigger] bases[j]).alias@ by {
        assert(base_error(bases, j) is None);
    }
    assert forall|i: int| 0 <= i < bases.len() implies !blank((#[trigger] bases[i]).alias@) by {
        assert(base_error(bases, i) is None);
    }
}

proof fn lemma_no_error(bases: Seq<BaseEntry>, from: int, i: int)
    requires
        0 <= from <= i < bases.len(),
        first_error(bases, from) is None,
    ensures
        base_error(bases, i) is None,
    decreases i - from,
{
    if from < i {
        lemma_no_error(bases, from + 1, i);
    }
}

// The base of an output directory.

/// A path with slashes for back-slashes.
pub open spec fn slashed(p: Seq<char>) -> Seq<char> {
    p.map_values(
        |c: char|
            if c == '\\' {
                '/'
            } else {
                c
            },
    )
}

/// A path as it is compared, but for the case of its letters.
pub open spec fn plain_path(p: Seq<char>) -> Seq<char> {
    text::trim_end_of(slashed(text::trim(p)), "/"@)
}

/// A path as it is compared: slashes of one kind, none at the end, in lower
/// case.
pub open spec fn normalized(p: Seq<char>) -> Seq<char> {
    text::lower(plain_path(p))
}

/// A path as it is compared.
pub fn normalize_output_path(p: &str) -> (r: String)
    ensures
        r@ == normalized(p@),
{
    let t = text::trimmed(p);
    let v = text::chars_of(&t);
    let mut out = String::new();
    for i in 0..v.len()
        invariant
            v@ == t@,
            out@ == slashed(t@).take(i as int),
    {
        out.push(
            if v[i] == '\\' {
                '/'
            } else {
                v[i]
            },
        );
        assert(slashed(t@).take(i + 1) =~= slashed(t@).take(i as int).push(slashed(t@)[i as int]));
    }
    assert(slashed(t@).take(t@.len() as int) =~= slashed(t@));
    let cut = text::trimmed_end_of(&out, "/");
    text::to_lowercase(&cut)
}

/// The first place at which `key` stands in a list.
pub open spec fn first_place(keys: Seq<Seq<char>>, key: Seq<char>, i: int) -> Option<int>
    decreases keys.len() - i,
{
    if i < 0 || i >= keys.len() {
        None
    } else if keys[i] == key {
        Some(i)
    } else {
        first_place(keys, key, i + 1)
    }
}

/// The alias of the first base whose path, as it is compared, is `target`;
/// none for an empty path.
pub open spec fn alias_at(
    bases: Seq<BaseEntry>,
    paths: Seq<Seq<char>>,
    target: Seq<char>,
) -> Option<Seq<char>> {
    if target.len() == 0 {
        None
    } else {
        match first_place(paths, target, 0) {
            Some(i) => Some(bases[i].alias@),
            None => None,
        }
    }
}

/// The paths of the bases, as they are compared.
pub open spec fn base_paths(bases: Seq<BaseEntry>) -> Seq<Seq<char>> {
    bases.map_values(|b: BaseEntry| normalized(b.output_path@))
}

/// The alias of the first base whose path, as it is compared, is `target`.
/// `paths` holds these paths of the bases.
pub fn alias_by_path(bases: &[BaseEntry], paths: &Vec<String>, target: &str) -> (r: Option<String>)
    requires
        paths@.len() == bases@.len(),
    ensures
        text::opt_view(r) == alias_at(bases@, text::views(paths@), target@),
{
    if target.is_empty() {
        return None;
    }
    let n: usize = bases.len();
    let mut i: usize = 0;
    while i < n
        invariant
            n == bases@.len(),
            paths@.len() == n,
            target@.len() > 0,
            i <= n,
            first_place(text::views(paths@), target@, 0) == first_place(
                text::views(paths@),
                target@,
                i as int,
            ),
        decreases n - i,
    {
        if text::same(&paths[i], target) {
            return Some(bases[i].alias.clone());
        }
        i = i + 1;
    }
    None
}

/// The alias of the first base whose output directory is the given one, up to
/// the kind of slashes, a slash at the end and the case of letters.
pub fn alias_for_output_path_in(bases: &[BaseEntry], output_path: &str) -> (r: Option<String>)
    ensures
        text::opt_view(r) == alias_at(bases@, base_paths(bases@), normalized(output_path@)),
{
    let target = normalize_output_path(output_path);
    let mut paths: Vec<String> = Vec::new();
    for i in 0..bases.len()
        invariant
            text::views(paths@) == base_paths(bases@).take(i as int),
    {
        let p = normalize_output_path(&bases[i].output_path);
        let ghost before = paths@;
        paths.push(p);
        assert(text::views(paths@) =~= text::views(before).push(p@));
        assert(base_paths(bases@).take(i + 1) =~= base_paths(bases@).take(i as int).push(
            base_paths(bases@)[i as int],
        ));
    }
    assert(base_paths(bases@).take(bases@.len() as int) =~= base_paths(bases@));
    assert(paths@.len() == text::views(paths@).len());
    alias_by_path(bases, &paths, &target)
}

/// The case of letters in an ASCII path does not matter to the search.
pub proof fn case_of_letters_does_not_matter(p: Seq<char>, q: Seq<char>)
    requires
        text::is_ascii(plain_path(p)),
        text::eq_ignore_case(plain_path(p), plain_path(q)),
    ensures
        normalized(p) == normalized(q),
{
    let a = plain_path(p);
    let b = plain_path(q);
    assert forall|i: int| 0 <= i < b.len() implies (#[trigger] b[i] as u32) < 128 by {
        assert((a[i] as u32) < 128);
        assert(text::lower_ascii(a[i]) == text::lower_ascii(b[i]));
    }
    assert(text::lowered(a) =~= text::lowered(b));
}

/// The kind of slashes in a path does not matter to the search.
pub proof fn kind_of_slashes_does_not_matter(p: Seq<char>, q: Seq<char>)
    requires
        slashed(text::trim(p)) == slashed(text::trim(q)),
    ensures
        normalized(p) == normalized(q),
{
}

/// A slash at the end of a path does not matter to the search, unless white
/// space stands before it.
pub proof fn slash_at_the_end_does_not_matter(p: Seq<char>)
    requires
        text::trim(p).len() > 0 ==> !text::is_space(p.last()),
    ensures
        normalized(p.push('/')) == normalized(p),
        normalized(p.push('\\')) == normalized(p),
{
    lemma_slash_at_the_end(p, '/');
    lemma_slash_at_the_end(p, '\\');
}

proof fn lemma_slash_at_the_end(p: Seq<char>, c: char)
    requires
        text::trim(p).len() > 0 ==> !text::is_space(p.last()),
        c == '/' || c == '\\',
    ensures
        plain_path(p.push(c)) == plain_path(p),
    decreases p.len(),
{
    reveal_strlit("/");
    let a = p.push(c);
    if p.len() > 0 && text::is_space(p[0]) {
        assert(a.skip(1) =~= p.skip(1).push(c));
        assert(p.len() > 1 ==> p.skip(1).last() == p.last());
        assert(text::trim(p.skip(1)) == text::trim(p));
        lemma_slash_at_the_end(p.skip(1), c);
    } else {
        assert(text::trim_start(p) == p);
        assert(text::trim(p) == text::trim_end(p));
        if p.len() > 0 {
            assert(text::trim_end(p).len() > 0) by {
                lemma_trim_end_keeps(p);
            }
        }
        assert(text::trim(p) == p);
        assert(text::trim(a) == a);
        let s = slashed(p).push('/');
        assert(slashed(a) =~= s);
        assert("/"@[0] == '/');
        assert("/"@.contains(s.last()));
        assert(s.drop_last() =~= slashed(p));
    }
}

proof fn lemma_trim_end_keeps(p: Seq<char>)
    requires
        p.len() > 0,
        !text::is_space(p[0]),
    ensures
        text::trim_end(p).len() > 0,
    decreases p.len(),
{
    if text::is_space(p.last()) {
        assert(p.len() > 1);
        lemma_trim_end_keeps(p.drop_last());
    }
}

/// A register is valid exactly where it has bases and each of them has an alias
/// of its own, a place for its output, a server, a program, a login, all that its
/// ways to look for changes and to authorise need, and line ends that exist.
#[verifier::rlimit(40)]
pub proof fn register_is_valid_where_every_base_is(bases: Seq<BaseEntry>)
    ensures
        register_error(bases) is None <==> bases.len() > 0 && (forall|i: int|
            0 <= i < bases.len() ==> is_complete(#[trigger] bases[i]) && (forall|j: int|
                0 <= j < i ==> (#[trigger] bases[j]).alias@ != bases[i].alias@)),
{
    lemma_first_error(bases, 0);
    lemma_words();
    if register_error(bases) is None {
        assert forall|i: int| 0 <= i < bases.len() implies is_complete(#[trigger] bases[i]) && (
        forall|j: int| 0 <= j < i ==> (#[trigger] bases[j]).alias@ != bases[i].alias@) by {
            assert(base_error(bases, i) is None);
        }
    } else if bases.len() > 0 && (forall|i: int|
        0 <= i < bases.len() ==> is_complete(#[trigger] bases[i]) && (forall|j: int|
            0 <= j < i ==> (#[trigger] bases[j]).alias@ != bases[i].alias@)) {
        let k = choose|k: int|
            0 <= k < bases.len() && #[trigger] base_error(bases, k) is Some && first_error(bases, 0)
                == base_error(bases, k);
        assert(is_complete(bases[k]));
    }
}

/// A base has all that it needs.
pub open spec fn is_complete(b: BaseEntry) -> bool {
    let line_ends = text::trim(b.git_autocrlf@);
    &&& text::trim(b.alias@).len() > 0
    &&& text::trim(b.output_path@).len() > 0
    &&& text::trim(b.sql_server@).len() > 0
    &&& text::trim(b.ibcmd_path@).len() > 0
    &&& text::trim(b.login@).len() > 0
    &&& b.change_detection == ChangeDetection::Eventlog ==> text::trim(b.mcp_url@).len() > 0
        && text::trim(b.mcp_api_key@).len() > 0
    &&& b.git_auth_type@ == "password"@ ==> b.git_user is Some && b.git_password is Some
    &&& !b.ibcmd_db_auth_windows ==> b.db_user is Some && b.db_pwd is Some
    &&& line_ends.len() == 0 || line_ends == "false"@ || line_ends == "true"@ || line_ends
        == "input"@
}

proof fn lemma_words()
    ensures
        ""@.len() == 0,
        forall|s: Seq<char>| #[trigger] s.len() == 0 ==> s == ""@,
{
    reveal_strlit("");
    assert forall|s: Seq<char>| #[trigger] s.len() == 0 implies s == ""@ by {
        assert(s =~= ""@);
    }
}

proof fn lemma_first_error(bases: Seq<BaseEntry>, i: int)
    requires
        0 <= i,
    ensures
        first_error(bases, i) is None ==> forall|k: int|
            i <= k < bases.len() ==> #[trigger] base_error(bases, k) is None,
        first_error(bases, i) is Some ==> exists|k: int|
            i <= k < bases.len() && #[trigger] base_error(bases, k) is Some && first_error(bases, i)
                == base_error(bases, k) && (forall|j: int|
                i <= j < k ==> #[trigger] base_error(bases, j) is None),
    decreases bases.len() - i,
{
    if i < bases.len() {
        if base_error(bases, i) is Some {
            assert(first_error(bases, i) == base_error(bases, i));
        } else {
            lemma_first_error(bases, i + 1);
            if first_error(bases, i) is Some {
                let k = choose|k: int|
                    i + 1 <= k < bases.len() && #[trigger] base_error(bases, k) is Some
                        && first_error(bases, i + 1) == base_error(bases, k) && (forall|j: int|
                        i + 1 <= j < k ==> #[trigger] base_error(bases, j) is None);
                assert(first_error(bases, i) == base_error(bases, k));
            }
        }
    }
}

/// The error of a register is that of the first base that has one.
pub proof fn first_error_is_reported(bases: Seq<BaseEntry>, k: int)
    requires
        0 <= k < bases.len(),
        base_error(bases, k) is Some,
        forall|j: int| 0 <= j < k ==> #[trigger] base_error(bases, j) is None,
    ensures
        register_error(bases) == base_error(bases, k),
        bases.len() > 0,
{
    lemma_first_error(bases, 0);
    let m = choose|m: int|
        0 <= m < bases.len() && #[trigger] base_error(bases, m) is Some && first_error(bases, 0)
            == base_error(bases, m) && (forall|j: int|
            0 <= j < m ==> #[trigger] base_error(bases, j) is None);
    if m < k {
        assert(base_error(bases, m) is None);
    }
    if k < m {
        assert(base_error(bases, k) is None);
    }
}

/// What is missing is named, with the alias of the base.
#[verifier::rlimit(40)]
pub proof fn missing_parts_are_named(bases: Seq<BaseEntry>, i: int)
    requires
        0 <= i < bases.len(),
    ensures
        ({
            let b = bases[i];
            let e = base_error(bases, i);
            let named = text::trim(b.alias@).len() > 0 && !alias_taken(bases, i);
            let placed = named && text::trim(b.output_path@).len() > 0;
            let served = placed && text::trim(b.sql_server@).len() > 0;
            let watched = served && !(b.change_detection == ChangeDetection::Eventlog && (
            text::trim(b.mcp_url@).len() == 0 || text::trim(b.mcp_api_key@).len() == 0));
            let run = watched && text::trim(b.ibcmd_path@).len() > 0;
            let known = run && text::trim(b.login@).len() > 0;
            let pushed = known && !(b.git_auth_type@ == "password"@ && (b.git_user is None
                || b.git_password is None));
            let head = "alias '"@ + b.alias@;
            &&& text::trim(b.alias@).len() == 0 ==> e == Some(
                "найдена запись bases[] с пустым alias"@,
            )
            &&& text::trim(b.alias@).len() > 0 && alias_taken(bases, i) ==> e == Some(
                head + "' встречается дважды в bases[]"@,
            )
            &&& named && !placed ==> e == Some(
                head + "': outputPath пустой (это и каталог выгрузки, и git-репо)"@,
            )
            &&& placed && !served ==> e == Some(head + "': sqlServer пустой"@)
            &&& served && !watched ==> e == Some(
                head + "': changeDetection=eventlog требует mcpUrl и mcpApiKey"@,
            )
            &&& watched && !run ==> e == Some(head + "': ibcmdPath пустой"@)
            &&& run && !known ==> e == Some(head + "': login пустой"@)
            &&& known && !pushed ==> e == Some(
                head + "': git_auth_type=password требует git_user и git_password"@,
            )
            &&& pushed && !autocrlf_ok(b.git_autocrlf@) ==> e == Some(
                head + "': gitAutocrlf='"@ + b.git_autocrlf@
                    + "' — допустимы false, true, input или пустая строка"@,
            )
            &&& pushed && autocrlf_ok(b.git_autocrlf@) && !b.ibcmd_db_auth_windows && (b.db_user
                is None || b.db_pwd is None) ==> e == Some(
                head + "': ibcmd_db_auth_windows=false требует db_user и db_pwd"@,
            )
        }),
        alias_taken(bases, i) <==> exists|j: int|
            0 <= j < i && (#[trigger] bases[j]).alias@ == bases[i].alias@,
{
}

/// A base is found by the path of its output: the first one whose path is the
/// same, and none by an empty path.
pub proof fn base_is_found_by_its_path(
    bases: Seq<BaseEntry>,
    paths: Seq<Seq<char>>,
    target: Seq<char>,
    k: int,
)
    requires
        0 <= k < paths.len(),
        paths[k] == target,
        target.len() > 0,
        forall|j: int| 0 <= j < k ==> #[trigger] paths[j] != target,
    ensures
        alias_at(bases, paths, target) == Some(bases[k].alias@),
        alias_at(bases, paths, Seq::empty()) is None,
{
    lemma_first_place(paths, target, 0, k);
}

proof fn lemma_first_place(keys: Seq<Seq<char>>, key: Seq<char>, i: int, k: int)
    requires
        0 <= i <= k < keys.len(),
        keys[k] == key,
        forall|j: int| i <= j < k ==> #[trigger] keys[j] != key,
    ensures
        first_place(keys, key, i) == Some(k),
    decreases k - i,
{
    if i < k {
        lemma_first_place(keys, key, i + 1, k);
    }
}

/// No base is found by a path that none of them has.
pub proof fn unknown_path_finds_no_base(
    bases: Seq<BaseEntry>,
    paths: Seq<Seq<char>>,
    target: Seq<char>,
)
    requires
        forall|j: int| 0 <= j < paths.len() ==> #[trigger] paths[j] != target,
    ensures
        alias_at(bases, paths, target) is None,
{
    lemma_no_place(paths, target, 0);
}

proof fn lemma_no_place(keys: Seq<Seq<char>>, key: Seq<char>, i: int)
    requires
        0 <= i,
        forall|j: int| 0 <= j < keys.len() ==> #[trigger] keys[j] != key,
    ensures
        first_place(keys, key, i) is None,
    decreases keys.len() - i,
{
    if i < keys.len() {
        lemma_no_place(keys, key, i + 1);
    }
}

/// A plain path in small letters is its own key, so two such paths are one only
/// where they are the same.
pub proof fn plain_paths_are_told_apart(p: Seq<char>)
    requires
        p.len() > 0 ==> !text::is_space(p[0]) && !text::is_space(p.last()),
        !p.contains('\\'),
        p.len() > 0 ==> p.last() != '/',
        text::is_ascii(p),
        text::lowered(p) == p,
    ensures
        normalized(p) == p,
{
    reveal_strlit("/");
    text::lemma_trim_id(p);
    assert forall|i: int| 0 <= i < p.len() implies slashed(p)[i] == p[i] by {
        assert(p.contains(p[i]));
    }
    assert(slashed(p) =~= p);
    if p.len() > 0 {
        assert(!"/"@.contains(p.last()));
    }
}

/// The bases are looked for by the paths of their outputs, in their order.
pub proof fn bases_have_the_paths_of_their_outputs(bases: Seq<BaseEntry>, i: int)
    requires
        0 <= i < bases.len(),
    ensures
        base_paths(bases).len() == bases.len(),
        base_paths(bases)[i] == normalized(bases[i].output_path@),
{
}

} // verus!
