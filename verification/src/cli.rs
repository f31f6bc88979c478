use crate::configs::CliConfigs;
use crate::fs::{join_spec, FileSystem};
use crate::lock::{first_named, Dependency as LockedDependency, Library as LockedLibrary, ProtoLock};
use crate::text::{decimal, split_char, split_on, str_equal, to_decimal};
use vstd::prelude::*;

verus! {

/// Protobuf Package Manager.
pub struct Cli {
    pub command: Commands,
    /// Turn prompter information off.
    pub quiet: bool,
    /// Turn debugging information on (-d, -dd, -ddd).
    pub debug: u8,
}

/// A subcommand of `plm`.
pub enum Commands {
    /// Initialize a new workspace.
    Init(Init),
    /// Installs a package.
    Install(Install),
    /// Uninstalls a package.
    Uninstall(Uninstall),
    /// Publishes a package.
    Publish(Publish),
    /// Saving login credentials for the registry.
    Login(Login),
    /// Reading and writing the settings.
    Config(ConfigArgs),
}

pub struct ConfigArgs {
    pub command: Option<ConfigCommand>,
}

/// A settings command.
pub enum ConfigCommand {
    /// Get a value from the config.
    Get { key: String },
    /// Set a value in the config (`plm config set`).
    Update { key: String, value: String },
    /// Show the entire config.
    Show { json: bool },
}

pub enum ConfigAction {
    Get,
    Update,
}

/// Create a new library.
pub struct Init {
    /// The library name to initialize.
    pub library_name: Option<String>,
    /// The library src directory where the protobuf files are nested.
    pub src_dir: Option<String>,
    /// The library description.
    pub description: Option<String>,
    /// The library version (major.minor.patch).
    pub version: Option<String>,
    /// The library dependencies, in format `<library>:<x.y.z>`.
    pub dependencies: Option<Vec<String>>,
    /// The library license.
    pub license: Option<License>,
    /// The directories excluded from publishing, comma-delimited.
    pub exclude: Option<String>,
}

#[derive(PartialEq, Eq, Structural, Clone, Copy)]
pub enum License {
    /// APACHE-2.0
    APACHE2,
    /// MIT
    MIT,
    /// GPL-3.0
    GPL,
    /// Unlicense
    UNLICENSE,
}

/// Credentials to log in or sign up with.
pub struct Login {
    pub user: String,
    pub password: String,
}

/// Installs a package.
pub struct Install {
    /// The name of the package to install.
    pub name: Option<String>,
    pub global: bool,
}

/// Uninstalls a package.
pub struct Uninstall {
    pub name: String,
}

/// Publishes a package.
pub struct Publish {
    /// The path to the package directory.
    pub path: Option<String>,
    /// Keep the import paths as written, within proto_modules/.
    pub preserve_imports: bool,
}

/// A library manifest, `proto-package.json`.
pub struct Manifest {
    pub name: String,
    pub version: String,
    pub src_dir: String,
    pub description: String,
    pub license: String,
    pub authors: Vec<String>,
    pub repository_url: String,
    pub metadata: Vec<(String, String)>,
    pub dependencies: Vec<(String, String)>,
    pub exclude: Vec<String>,
}

/// The licenses offered when `init` asks for one, in the order offered.
pub open spec fn available_licenses() -> Seq<Seq<char>> {
    seq!["MIT"@, "GPL-3.0"@, "APACHE-2.0"@, "Unlicense"@]
}

/// The name a license is written as in a manifest.
pub open spec fn license_text(l: License) -> Seq<char> {
    match l {
        License::MIT => "MIT"@,
        License::GPL => "GPL-3.0"@,
        License::APACHE2 => "APACHE-2.0"@,
        License::UNLICENSE => "Unlicense"@,
    }
}

/// The license the command line's license option names at menu position `i`: the
/// option's values in the order they are declared.
pub open spec fn license_at(i: int) -> License {
    if i == 0 {
        License::MIT
    } else if i == 1 {
        License::GPL
    } else if i == 2 {
        License::APACHE2
    } else {
        License::UNLICENSE
    }
}

/// The license menu of `init` offers MIT, GPL-3.0, APACHE-2.0 and Unlicense, in that
/// order, and each license is written in a manifest as it is named in the menu, at
/// the place the command line's license option gives it.
pub proof fn lemma_license_menu()
    ensures
        available_licenses().len() == 4,
        available_licenses()[0] == "MIT"@,
        available_licenses()[1] == "GPL-3.0"@,
        available_licenses()[2] == "APACHE-2.0"@,
        available_licenses()[3] == "Unlicense"@,
        license_text(License::MIT) == "MIT"@,
        license_text(License::GPL) == "GPL-3.0"@,
        license_text(License::APACHE2) == "APACHE-2.0"@,
        license_text(License::UNLICENSE) == "Unlicense"@,
        forall|i: int| 0 <= i < 4 ==> #[trigger] available_licenses()[i] == license_text(license_at(i)),
{
}

/// The name a license is written as in a manifest.
pub fn license_name(l: License) -> (r: &'static str)
    ensures
        r@ == license_text(l),
{
    match l {
        License::MIT => "MIT",
        License::GPL => "GPL-3.0",
        License::APACHE2 => "APACHE-2.0",
        License::UNLICENSE => "Unlicense",
    }
}

/// The license chosen at position `selection` of the offered list.
pub fn license_choice(selection: usize) -> (r: &'static str)
    requires
        selection < 4,
    ensures
        r@ == available_licenses()[selection as int],
{
    if selection == 0 {
        "MIT"
    } else if selection == 1 {
        "GPL-3.0"
    } else if selection == 2 {
        "APACHE-2.0"
    } else {
        "Unlicense"
    }
}

pub open spec fn or_default(o: Option<String>, d: Seq<char>) -> Seq<char> {
    match o {
        Some(s) => s@,
        None => d,
    }
}

fn string_or(o: &Option<String>, d: &str) -> (r: String)
    ensures
        r@ == or_default(*o, d@),
{
    match o {
        Some(s) => s.clone(),
        None => String::from_str(d),
    }
}

/// The manifest that `init` writes, from the options given and the project name and
/// license settled on (given or asked for). A missing version is `0.0.1`, a missing
/// description `Awesome Protobuf Package`, a missing source directory empty; the
/// excluded directories are the comma-separated pieces of the option.
pub fn build_manifest(init: &Init, project_name: String, license: String) -> (m: Manifest)
    ensures
        m.name@ == project_name@,
        m.license@ == license@,
        m.version@ == or_default(init.version, "0.0.1"@),
        m.description@ == or_default(init.description, "Awesome Protobuf Package"@),
        m.src_dir@ == or_default(init.src_dir, Seq::empty()),
        m.exclude@.map_values(|e: String| e@) == match init.exclude {
            Some(list) => split_on(list@, ','),
            None => Seq::empty(),
        },
        m.authors@.len() == 0,
        m.repository_url@.len() == 0,
        m.metadata@.len() == 0,
        m.dependencies@.len() == 0,
{
    let exclude = match &init.exclude {
        Some(list) => split_char(list.as_str(), ','),
        None => Vec::new(),
    };
    proof {
        reveal_strlit("");
    }
    assert(exclude@.map_values(|e: String| e@) =~= match init.exclude {
        Some(list) => split_on(list@, ','),
        None => Seq::<Seq<char>>::empty(),
    });
    Manifest {
        name: project_name,
        version: string_or(&init.version, "0.0.1"),
        src_dir: string_or(&init.src_dir, ""),
        description: string_or(&init.description, "Awesome Protobuf Package"),
        license,
        authors: Vec::new(),
        repository_url: String::new(),
        metadata: Vec::new(),
        dependencies: Vec::new(),
        exclude,
    }
}

pub open spec fn pairs_of(v: Seq<(String, String)>) -> Seq<(Seq<char>, Seq<char>)> {
    v.map_values(|e: (String, String)| (e.0@, e.1@))
}

/// Where `name` is among the keys of `pairs`, or -1.
pub open spec fn key_index(pairs: Seq<(Seq<char>, Seq<char>)>, name: Seq<char>) -> int
    decreases pairs.len(),
{
    if pairs.len() == 0 {
        -1
    } else if pairs.last().0 == name {
        pairs.len() - 1
    } else {
        key_index(pairs.drop_last(), name)
    }
}

proof fn lemma_key_index(pairs: Seq<(Seq<char>, Seq<char>)>, name: Seq<char>)
    ensures
        -1 <= key_index(pairs, name) < pairs.len(),
        key_index(pairs, name) >= 0 ==> pairs[key_index(pairs, name)].0 == name,
        forall|j: int| key_index(pairs, name) < j < pairs.len() ==> #[trigger] pairs[j].0 != name,
    decreases pairs.len(),
{
    if pairs.len() > 0 {
        lemma_key_index(pairs.drop_last(), name);
        if pairs.last().0 != name {
            assert forall|j: int| key_index(pairs, name) < j < pairs.len() implies #[trigger] pairs[j].0 != name by {
                if j < pairs.len() - 1 {
                    assert(pairs[j] == pairs.drop_last()[j]);
                }
            }
        }
    }
}

/// Two lists with the same names in the same places find a name at the same place.
proof fn lemma_key_index_same_names(a: Seq<(Seq<char>, Seq<char>)>, b: Seq<(Seq<char>, Seq<char>)>, name: Seq<char>)
    requires
        a.len() == b.len(),
        forall|j: int| 0 <= j < a.len() ==> #[trigger] a[j].0 == b[j].0,
    ensures
        key_index(a, name) == key_index(b, name),
    decreases a.len(),
{
    if a.len() > 0 {
        assert forall|j: int| 0 <= j < a.drop_last().len() implies #[trigger] a.drop_last()[j].0
            == b.drop_last()[j].0 by {
            assert(a.drop_last()[j] == a[j]);
            assert(b.drop_last()[j] == b[j]);
        }
        lemma_key_index_same_names(a.drop_last(), b.drop_last(), name);
    }
}

/// `pairs` with `name` mapped to `value`: the entry of `name` replaced where there is
/// one, else a new entry at the end.
pub open spec fn upsert_spec(
    pairs: Seq<(Seq<char>, Seq<char>)>,
    name: Seq<char>,
    value: Seq<char>,
) -> Seq<(Seq<char>, Seq<char>)> {
    let k = key_index(pairs, name);
    if k < 0 {
        pairs.push((name, value))
    } else {
        pairs.update(k, (name, value))
    }
}

/// After `name` is mapped to `value`, looking `name` up finds `value`, and looking up
/// any other name finds what it found before.
pub proof fn lemma_upsert_then_lookup(
    pairs: Seq<(Seq<char>, Seq<char>)>,
    name: Seq<char>,
    value: Seq<char>,
    other: Seq<char>,
)
    ensures
        ({
            let r = upsert_spec(pairs, name, value);
            &&& 0 <= key_index(r, name) < r.len()
            &&& r[key_index(r, name)] == (name, value)
            &&& other != name ==> key_index(r, other) == key_index(pairs, other)
            &&& other != name && key_index(pairs, other) >= 0 ==> r[key_index(r, other)] == pairs[key_index(
                pairs,
                other,
            )]
        }),
{
    lemma_key_index(pairs, name);
    lemma_key_index(pairs, other);
    let r = upsert_spec(pairs, name, value);
    let k = key_index(pairs, name);
    if k < 0 {
        assert(r.drop_last() =~= pairs);
        assert(key_index(r, name) == r.len() - 1);
        if other != name {
            assert(key_index(r, other) == key_index(r.drop_last(), other));
        }
    } else {
        assert forall|j: int| 0 <= j < r.len() implies #[trigger] r[j].0 == pairs[j].0 by {}
        lemma_key_index_same_names(r, pairs, name);
        lemma_key_index_same_names(r, pairs, other);
    }
}

/// No name occurs twice among the pairs.
pub open spec fn unique_keys(pairs: Seq<(Seq<char>, Seq<char>)>) -> bool {
    forall|i: int, j: int| 0 <= i < j < pairs.len() ==> #[trigger] pairs[i].0 != #[trigger] pairs[j].0
}

/// Mapping a name to a value keeps every name once.
pub proof fn lemma_upsert_keeps_keys_unique(pairs: Seq<(Seq<char>, Seq<char>)>, name: Seq<char>, value: Seq<char>)
    requires
        unique_keys(pairs),
    ensures
        unique_keys(upsert_spec(pairs, name, value)),
{
    lemma_key_index(pairs, name);
    let r = upsert_spec(pairs, name, value);
    let k = key_index(pairs, name);
    assert forall|i: int, j: int| 0 <= i < j < r.len() implies #[trigger] r[i].0 != #[trigger] r[j].0 by {
        if k < 0 {
            if j == pairs.len() {
                assert(pairs[i].0 != name);
            } else {
                assert(r[i] == pairs[i] && r[j] == pairs[j]);
            }
        } else {
            assert(r[i].0 == pairs[i].0 && r[j].0 == pairs[j].0);
        }
    }
}

/// Maps `name` to `value` in a list of name/value pairs, replacing an earlier value of
/// `name`.
pub fn upsert_pair(pairs: &mut Vec<(String, String)>, name: String, value: String)
    ensures
        pairs_of(final(pairs)@) == upsert_spec(pairs_of(old(pairs)@), name@, value@),
{
    let ghost deps = pairs_of(pairs@);
    let mut i: usize = pairs.len();
    assert(deps.take(i as int) =~= deps);
    while i > 0
        invariant
            0 <= i <= pairs.len(),
            deps == pairs_of(pairs@),
            deps == pairs_of(old(pairs)@),
            key_index(deps, name@) == key_index(deps.take(i as int), name@),
        decreases i,
    {
        assert(deps.take(i as int).drop_last() =~= deps.take(i - 1));
        if str_equal(pairs[i - 1].0.as_str(), name.as_str()) {
            pairs.set(i - 1, (name, value));
            assert(pairs_of(pairs@) =~= deps.update(i - 1, (name@, value@)));
            return;
        }
        i = i - 1;
    }
    pairs.push((name, value));
    assert(pairs_of(pairs@) =~= deps.push((name@, value@)));
}

impl Manifest {
    /// Records that the project depends on `name` at `version`, replacing an earlier
    /// version of `name`.
    pub fn add_dependency(&mut self, name: String, version: String)
        ensures
            pairs_of(final(self).dependencies@) == upsert_spec(
                pairs_of(old(self).dependencies@),
                name@,
                version@,
            ),
            final(self).name == old(self).name,
            final(self).version == old(self).version,
    {
        upsert_pair(&mut self.dependencies, name, version);
    }
}

/// What `install` does, given the lock of the project.
pub enum InstallStep {
    /// The library is in the lock already: suggest updating it.
    AlreadyInstalled(String),
    /// Install the library of that name.
    Install(String),
    /// No library was named; installing everything the project needs is not supported.
    InstallAll,
}

/// The first step of `install`: a library already in the lock is not installed again.
pub fn install_step(lock: &ProtoLock, name: Option<String>) -> (r: InstallStep)
    ensures
        name is None ==> r is InstallAll,
        name matches Some(n) ==> (if first_named(lock.libraries@, n@) >= 0 {
            r matches InstallStep::AlreadyInstalled(found) && found@ == n@
        } else {
            r == InstallStep::Install(n)
        }),
{
    let ghost given = name;
    match lock.find_library(name.clone()) {
        Some(library) => {
            let found = library.name.clone();
            proof {
                crate::lock::lemma_first_named_found(lock.libraries@, given->0@);
            }
            InstallStep::AlreadyInstalled(found)
        },
        None => match name {
            Some(n) => InstallStep::Install(n),
            None => InstallStep::InstallAll,
        },
    }
}

/// Install, after the download: records the library installed, at the version the
/// registry gave, with its resolved dependencies, in the lock and among the project's
/// dependencies.
pub fn record_install(
    lock: &mut ProtoLock,
    manifest: &mut Manifest,
    name: String,
    version: String,
    dependencies: Vec<LockedDependency>,
) -> (r: Result<(), String>)
    ensures
        r is Ok,
        final(lock).libraries@.len() == old(lock).libraries@.len() + 1,
        final(lock).libraries@.drop_last() == old(lock).libraries@,
        final(lock).libraries@.last().name == name,
        final(lock).libraries@.last().version == version,
        final(lock).libraries@.last().dependencies == dependencies,
        pairs_of(final(manifest).dependencies@) == upsert_spec(
            pairs_of(old(manifest).dependencies@),
            name@,
            version@,
        ),
        final(manifest).name == old(manifest).name,
        final(manifest).version == old(manifest).version,
{
    let installed = LockedLibrary { name: name.clone(), version: version.clone(), dependencies };
    lock.add_library(installed);
    assert(lock.libraries@.drop_last() =~= old(lock).libraries@);
    match lock.validate() {
        Err(e) => return Err(e),
        Ok(()) => {},
    }
    manifest.add_dependency(name, version);
    Ok(())
}

/// How a login attempt was refused by the registry.
pub enum LoginFailure {
    NotFound,
    Unauthenticated,
    Other,
}

/// What to do after a login attempt.
pub enum LoginStep {
    /// The user is unknown: warn with the message and create the user.
    CreateUser(String),
    /// Report the message as an error.
    Report(String),
    /// Keep the token in the configuration and write it out.
    StoreToken(String),
}

/// The step after the registry answered a login: a token, or a refusal and its message.
pub fn login_step(reply: Result<String, (LoginFailure, String)>) -> (r: LoginStep)
    ensures
        reply matches Ok(t) ==> r == LoginStep::StoreToken(t),
        reply matches Err((LoginFailure::NotFound, m)) ==> r == LoginStep::CreateUser(m),
        reply matches Err((LoginFailure::Unauthenticated, m)) ==> r == LoginStep::Report(m),
        reply matches Err((LoginFailure::Other, m)) ==> r == LoginStep::Report(m),
{
    match reply {
        Ok(t) => LoginStep::StoreToken(t),
        Err((LoginFailure::NotFound, m)) => LoginStep::CreateUser(m),
        Err((_, m)) => LoginStep::Report(m),
    }
}

/// The lines that sum up a new project after `init`.
pub fn log_summary(project_name: &str, license: &str, version: &str, description: &str) -> (r: Vec<String>)
    ensures
        r@.len() == 4,
        r@[0]@ == "Project Name: "@ + project_name@,
        r@[1]@ == "License: "@ + license@,
        r@[2]@ == "Version: "@ + version@,
        r@[3]@ == "Description: "@ + description@,
{
    let mut lines: Vec<String> = Vec::new();
    let mut name = String::from_str("Project Name: ");
    name.append(project_name);
    lines.push(name);
    let mut lic = String::from_str("License: ");
    lic.append(license);
    lines.push(lic);
    let mut ver = String::from_str("Version: ");
    ver.append(version);
    lines.push(ver);
    let mut desc = String::from_str("Description: ");
    desc.append(description);
    lines.push(desc);
    lines
}

/// The lock file of a project.
pub const PROTO_LOCK_FILE: &'static str = "proto-lock.json";

/// The manifest file of a project.
pub const PROTO_PACKAGE_FILE: &'static str = "proto-package.json";

/// The path of the lock file of the project at `current_dir`.
pub fn proto_lock_path(current_dir: &str) -> (r: String)
    ensures
        r@ == join_spec(current_dir@, PROTO_LOCK_FILE@),
{
    FileSystem::join_paths(current_dir, PROTO_LOCK_FILE)
}

/// The path of the manifest of the project at `dir`.
pub fn manifest_path(dir: &str) -> (r: String)
    ensures
        r@ == join_spec(dir@, PROTO_PACKAGE_FILE@),
{
    FileSystem::join_paths(dir, PROTO_PACKAGE_FILE)
}

/// How much is logged.
#[derive(PartialEq, Eq, Structural, Clone, Copy)]
pub enum LogLevel {
    Off,
    Info,
    Debug,
    Trace,
}

/// The level of trace output for `-d` given `debug` times: none is info, once is
/// debug, more is trace.
pub fn tracing_level(debug: u8) -> (r: LogLevel)
    ensures
        r == (if debug == 0 {
            LogLevel::Info
        } else if debug == 1 {
            LogLevel::Debug
        } else {
            LogLevel::Trace
        }),
{
    if debug == 0 {
        LogLevel::Info
    } else if debug == 1 {
        LogLevel::Debug
    } else {
        LogLevel::Trace
    }
}

/// The level of user messages: off when quiet; otherwise debug for `-d`, trace for
/// `-dd`, and info else.
pub fn prompter_level(debug: u8, quiet: bool) -> (r: LogLevel)
    ensures
        r == (if quiet {
            LogLevel::Off
        } else if debug == 1 {
            LogLevel::Debug
        } else if debug == 2 {
            LogLevel::Trace
        } else {
            LogLevel::Info
        }),
{
    if quiet {
        LogLevel::Off
    } else if debug == 1 {
        LogLevel::Debug
    } else if debug == 2 {
        LogLevel::Trace
    } else {
        LogLevel::Info
    }
}

/// The line reporting how long a step took: in milliseconds under a second,
/// otherwise in whole seconds.
pub fn elapsed_label(label: &str, millis: u64, secs: u64) -> (r: String)
    ensures
        r@ == label@ + " took "@ + (if millis < 1000 {
            decimal(millis as nat) + "ms"@
        } else {
            decimal(secs as nat) + "s"@
        }),
{
    let mut s = String::from_str(label);
    s.append(" took ");
    if millis < 1000 {
        s.append(to_decimal(millis).as_str());
        s.append("ms");
    } else {
        s.append(to_decimal(secs).as_str());
        s.append("s");
    }
    s
}

/// The kinds of user messages.
pub enum MessageType {
    Task,
    Warning,
    Info,
    Normal,
    Error,
    Verbose,
}

/// The text of a user message (before it is colored).
pub open spec fn message_text_spec(kind: MessageType, step: nat, total: nat, text: Seq<char>) -> Seq<char> {
    match kind {
        MessageType::Task => "["@ + decimal(step) + "/"@ + decimal(total) + "] "@ + text,
        MessageType::Error => "> [ERROR]: "@ + text,
        MessageType::Warning => "> [WARN]: "@ + text,
        MessageType::Info => "> [INFO]: "@ + text,
        MessageType::Normal => text,
        MessageType::Verbose => "> [DEBUG]: "@ + text,
    }
}

/// The text of a user message (before it is colored).
pub fn message_text(kind: &MessageType, step: u64, total: u64, text: &str) -> (r: String)
    ensures
        r@ == message_text_spec(*kind, step as nat, total as nat, text@),
{
    let mut s = match kind {
        MessageType::Task => {
            let mut s = String::from_str("[");
            s.append(to_decimal(step).as_str());
            s.append("/");
            s.append(to_decimal(total).as_str());
            s.append("] ");
            s
        },
        MessageType::Error => String::from_str("> [ERROR]: "),
        MessageType::Warning => String::from_str("> [WARN]: "),
        MessageType::Info => String::from_str("> [INFO]: "),
        MessageType::Normal => String::new(),
        MessageType::Verbose => String::from_str("> [DEBUG]: "),
    };
    s.append(text);
    s
}

impl CliConfigs {
    /// `plm config set`: only the registry can be set this way. Returns whether the key
    /// was accepted; otherwise nothing changes.
    pub fn set_config(&mut self, key: &str, value: String) -> (accepted: bool)
        ensures
            accepted == (key@ == "registry"@),
            accepted ==> final(self).registry == value,
            !accepted ==> final(self).registry == old(self).registry,
            final(self).username == old(self).username,
            final(self).password == old(self).password,
            final(self).token == old(self).token,
            final(self).current_dir == old(self).current_dir,
    {
        if str_equal(key, "registry") {
            self.registry = value;
            true
        } else {
            false
        }
    }
}

/// Characters allowed in a library name; `/` is allowed only in scoped
/// (`@`-prefixed) names.
pub open spec fn lib_name_char(c: char, allow_slash: bool) -> bool {
    ('a' <= c && c <= 'z') || ('A' <= c && c <= 'Z') || c == '-' || c == '_' || (allow_slash
        && c == '/')
}

/// A scoped name starts with `@`; the rest may use ASCII letters, `-`, `_` and `/`.
/// Any other name may use ASCII letters, `-` and `_` only.
pub open spec fn is_scoped_name(s: Seq<char>) -> bool {
    s.len() > 0 && s[0] == '@'
}

pub open spec fn valid_lib_name(s: Seq<char>) -> bool {
    if is_scoped_name(s) {
        forall|i: int| 1 <= i < s.len() ==> #[trigger] lib_name_char(s[i], true)
    } else {
        forall|i: int| 0 <= i < s.len() ==> #[trigger] lib_name_char(s[i], false)
    }
}

/// Which names are valid: a name not starting with `@` exactly when each of its
/// characters is an ASCII letter (lower or upper case), `-` or `_`; a name starting
/// with `@` exactly when each character after the `@` is one of those or `/`.
pub proof fn lemma_valid_lib_names(s: Seq<char>)
    ensures
        !(s.len() > 0 && s[0] == '@') ==> (valid_lib_name(s) <==> forall|i: int|
            0 <= i < s.len() ==> ('a' <= #[trigger] s[i] <= 'z') || ('A' <= s[i] <= 'Z') || s[i] == '-' || s[i]
                == '_'),
        (s.len() > 0 && s[0] == '@') ==> (valid_lib_name(s) <==> forall|i: int|
            1 <= i < s.len() ==> ('a' <= #[trigger] s[i] <= 'z') || ('A' <= s[i] <= 'Z') || s[i] == '-' || s[i]
                == '_' || s[i] == '/'),
{
    if !(s.len() > 0 && s[0] == '@') {
        if valid_lib_name(s) {
            assert forall|i: int| 0 <= i < s.len() implies ('a' <= #[trigger] s[i] <= 'z') || ('A' <= s[i] <= 'Z')
                || s[i] == '-' || s[i] == '_' by {
                assert(lib_name_char(s[i], false));
            }
        }
    } else {
        if valid_lib_name(s) {
            assert forall|i: int| 1 <= i < s.len() implies ('a' <= #[trigger] s[i] <= 'z') || ('A' <= s[i] <= 'Z')
                || s[i] == '-' || s[i] == '_' || s[i] == '/' by {
                assert(lib_name_char(s[i], true));
            }
        }
    }
}

fn is_lib_name_char(c: char, allow_slash: bool) -> (r: bool)
    ensures
        r == lib_name_char(c, allow_slash),
{
    ('a' <= c && c <= 'z') || ('A' <= c && c <= 'Z') || c == '-' || c == '_' || (allow_slash
        && c == '/')
}

/// Checks that a library name consists of allowed characters.
pub fn validate_lib_name(name: &str) -> (r: Result<(), String>)
    ensures
        r is Ok <==> valid_lib_name(name@),
        r matches Err(msg) ==> (if is_scoped_name(name@) {
            msg@ == "Library name must consist of ASCII alphabetic characters, dash, lower dash, or forward slash"@
        } else {
            msg@ == "Library name must consist of ASCII alphabetic characters, dash, or lower dash"@
        }),
{
    let n = name.unicode_len();
    let scoped = n > 0 && name.get_char(0) == '@';
    let start: usize = if scoped { 1 } else { 0 };
    let mut i: usize = start;
    while i < n
        invariant
            start <= i <= n,
            n == name@.len(),
            scoped == is_scoped_name(name@),
            start == (if scoped { 1usize } else { 0usize }),
            forall|j: int| start <= j < i ==> #[trigger] lib_name_char(name@[j], scoped),
        decreases n - i,
    {
        let c = name.get_char(i);
        if !is_lib_name_char(c, scoped) {
            if scoped {
                return Err(String::from_str("Library name must consist of ASCII alphabetic characters, dash, lower dash, or forward slash"));
            } else {
                return Err(String::from_str("Library name must consist of ASCII alphabetic characters, dash, or lower dash"));
            }
        }
        i = i + 1;
    }
    Ok(())
}

} // verus!
