//! Registry settings, its local storage layout and the check of bearer tokens.
use crate::fs::{join_spec, FileSystem};
use crate::store::{File, Library};
use crate::text::{decimal, has_prefix, starts_with, to_decimal};
use vstd::prelude::*;

verus! {

pub const REGISTRY_HOST: &'static str = "127.0.0.1";

pub const REGISTRY_PORT: u32 = 7575;

pub const REGISTRY_PATH: &'static str = "proto_registry";

pub const DB_HOST: &'static str = "localhost:5432";

pub const DB_USER: &'static str = "plm_admin";

pub const DB_PASS: &'static str = "plm_admin";

/// The storage directory used when none is configured.
pub const DEFAULT_STORE_PATH: &'static str = "plm_registry";

/// Where the registry listens.
pub struct Server {
    pub host: String,
    pub port: u32,
    pub log_level: i32,
}

/// Storage on the local file system.
pub struct Local {
    pub registry_path: String,
}

/// Storage in an S3 bucket.
pub struct S3 {
    pub bucket_name: String,
}

/// Where the registry keeps library files.
pub enum StorageBackend {
    Local(Local),
    S3(S3),
}

pub struct Storage {
    pub storage_backend: Option<StorageBackend>,
}

/// How to reach the database.
pub struct Data {
    pub host: String,
    pub username: String,
    pub password: String,
}

/// The complete registry configuration.
pub struct Config {
    pub data: Option<Data>,
    pub server: Option<Server>,
    pub storage: Option<Storage>,
}

/// Errors of the registry.
pub enum RegistryError {
    InvalidConfigSetup(String),
    InvalidFileContent(String),
}

/// Builds a registry configuration from defaults and overrides.
pub struct ConfigBuilder {
    pub server: Server,
    pub storage: StorageBackend,
    pub data: Data,
}

/// The default server: `127.0.0.1:7575`, log level 0.
pub fn default_server_setup() -> (s: Server)
    ensures
        s.host@ == REGISTRY_HOST@,
        s.port == REGISTRY_PORT,
        s.log_level == 0,
{
    Server { host: String::from_str(REGISTRY_HOST), port: REGISTRY_PORT, log_level: 0 }
}

/// The default local registry path: `proto_registry` under the working directory.
pub fn default_local_registry_path(current_dir: &str) -> (p: String)
    ensures
        p@ == join_spec(current_dir@, REGISTRY_PATH@),
{
    FileSystem::join_paths(current_dir, REGISTRY_PATH)
}

/// The default storage: local, under the default registry path.
pub fn default_storage_setup(current_dir: &str) -> (s: StorageBackend)
    ensures
        s matches StorageBackend::Local(l) && l.registry_path@ == join_spec(current_dir@, REGISTRY_PATH@),
{
    StorageBackend::Local(Local { registry_path: default_local_registry_path(current_dir) })
}

/// The default database: `localhost:5432` with the administrator account.
pub fn default_db_setup() -> (d: Data)
    ensures
        d.host@ == DB_HOST@,
        d.username@ == DB_USER@,
        d.password@ == DB_PASS@,
{
    Data {
        host: String::from_str(DB_HOST),
        username: String::from_str(DB_USER),
        password: String::from_str(DB_PASS),
    }
}

impl ConfigBuilder {
    /// A builder holding the defaults, for a registry started in `current_dir`.
    pub fn new(current_dir: &str) -> (b: Self)
        ensures
            b.server.host@ == REGISTRY_HOST@,
            b.server.port == REGISTRY_PORT,
            b.server.log_level == 0,
            b.storage matches StorageBackend::Local(l) && l.registry_path@ == join_spec(
                current_dir@,
                REGISTRY_PATH@,
            ),
            b.data.host@ == DB_HOST@,
            b.data.username@ == DB_USER@,
            b.data.password@ == DB_PASS@,
    {
        ConfigBuilder {
            server: default_server_setup(),
            data: default_db_setup(),
            storage: default_storage_setup(current_dir),
        }
    }

    /// Sets the host the server listens on.
    pub fn host(&mut self, host: &str) -> (r: &mut Self)
        ensures
            r.server.host@ == host@,
            r.server.port == old(self).server.port,
            r.server.log_level == old(self).server.log_level,
            r.storage == old(self).storage,
            r.data == old(self).data,
            *final(self) == *final(r),
    {
        self.server.host = String::from_str(host);
        self
    }

    /// Sets the port the server listens on.
    pub fn port(&mut self, port: u32) -> (r: &mut Self)
        ensures
            r.server.port == port,
            r.server.host == old(self).server.host,
            r.server.log_level == old(self).server.log_level,
            r.storage == old(self).storage,
            r.data == old(self).data,
            *final(self) == *final(r),
    {
        self.server.port = port;
        self
    }

    /// Sets the database to use.
    pub fn data(&mut self, data_setup: Data) -> (r: &mut Self)
        ensures
            r.data == data_setup,
            r.server == old(self).server,
            r.storage == old(self).storage,
            *final(self) == *final(r),
    {
        self.data = data_setup;
        self
    }

    /// The configuration: every part present, as set.
    pub fn build(self) -> (c: Config)
        ensures
            c.data == Some(self.data),
            c.server == Some(self.server),
            c.storage == Some(Storage { storage_backend: Some(self.storage) }),
    {
        Config {
            data: Some(self.data),
            server: Some(self.server),
            storage: Some(Storage { storage_backend: Some(self.storage) }),
        }
    }
}

/// The database the registry connects to, as a URL:
/// `postgres://<username>:<password>@<host>/registrydb`.
pub fn database_url(data: &Data) -> (r: String)
    ensures
        r@ == "postgres://"@ + data.username@ + ":"@ + data.password@ + "@"@ + data.host@
            + "/registrydb"@,
{
    let mut url = String::from_str("postgres://");
    url.append(data.username.as_str());
    url.append(":");
    url.append(data.password.as_str());
    url.append("@");
    url.append(data.host.as_str());
    url.append("/registrydb");
    url
}

/// The address the registry listens on: `<host>:<port>`.
pub fn server_address(server: &Server) -> (r: String)
    ensures
        r@ == server.host@ + ":"@ + decimal(server.port as nat),
{
    let mut addr = String::from_str(server.host.as_str());
    addr.append(":");
    let port = to_decimal(server.port as u64);
    addr.append(port.as_str());
    addr
}

/// The directory the registry stores libraries in: that of the local storage, or
/// `plm_registry` where no backend is configured. S3 storage is not supported by the
/// registry server and is left out.
pub fn registry_store_path(backend: Option<StorageBackend>) -> (r: String)
    requires
        !(backend matches Some(StorageBackend::S3(_))),
    ensures
        backend is None ==> r@ == DEFAULT_STORE_PATH@,
        backend matches Some(StorageBackend::Local(l)) ==> r == l.registry_path,
{
    match backend {
        None => String::from_str(DEFAULT_STORE_PATH),
        Some(StorageBackend::Local(l)) => l.registry_path,
        Some(StorageBackend::S3(_)) => String::new(),
    }
}

/// How long a login token stays valid, in seconds.
pub const TOKEN_LIFETIME_SECS: u64 = 3600;

/// The decimal form of a signed number, with a `-` before a negative one.
pub open spec fn signed_decimal(n: int) -> Seq<char> {
    if n < 0 {
        "-"@ + decimal((-n) as nat)
    } else {
        decimal(n as nat)
    }
}

/// The claims of the token made for `user_id` at `now_secs` (seconds since the Unix
/// epoch): the subject, the user id in decimal, and the expiry, an hour later.
pub fn token_claims(user_id: i32, now_secs: u64) -> (r: (String, u64))
    requires
        now_secs + TOKEN_LIFETIME_SECS <= u64::MAX,
    ensures
        r.0@ == signed_decimal(user_id as int),
        r.1 == now_secs + TOKEN_LIFETIME_SECS,
{
    let subject = if user_id < 0 {
        let magnitude: u64 = (0i64 - (user_id as i64)) as u64;
        let mut s = String::from_str("-");
        s.append(to_decimal(magnitude).as_str());
        s
    } else {
        to_decimal(user_id as u64)
    };
    (subject, now_secs + TOKEN_LIFETIME_SECS)
}

/// The token that `jsonwebtoken::encode` makes with the default header (HS256) and the
/// HMAC key `secret` for the claims `{"sub": sub, "exp": exp}`, written in that order.
pub uninterp spec fn jwt_encoding(secret: Seq<u8>, sub: Seq<char>, exp: u64) -> Seq<char>;

/// Calls `jsonwebtoken::encode` with the default header, the claims `sub` and `exp`
/// (built by hand, in that order) and `EncodingKey::from_secret`. The contract claims
/// the named result, and that encoding succeeds: in the jsonwebtoken source, `encode`
/// fails only when the key's family differs from the header's algorithm (an HMAC key
/// for HS256 does not) or when the header or claims cannot be serialised (these always can be).
#[verifier::external_body]
fn encode_claims(secret: &[u8], sub: &str, exp: u64) -> (r: Result<String, String>)
    ensures
        r is Ok,
        r matches Ok(t) ==> t@ == jwt_encoding(secret@, sub@, exp),
{
    let mut claims = serde_json::Map::new();
    claims.insert("sub".to_string(), serde_json::Value::String(sub.to_string()));
    claims.insert("exp".to_string(), serde_json::Value::from(exp));
    jsonwebtoken::encode(&jsonwebtoken::Header::default(), &claims, &jsonwebtoken::EncodingKey::from_secret(secret))
        .map_err(|e| e.to_string())
}

/// Calls `jsonwebtoken::decode` with `DecodingKey::from_secret` and the default
/// validation (HS256, an `exp` claim required and checked against the clock with a
/// leeway of 60 seconds), and hands back the `sub` claim where it is a string and the
/// `exp` claim where it is an unsigned integer. As the outcome depends on the clock, it
/// gets no name; the contract claims only what holds of every outcome: a token without
/// a `.` is refused (the token is split at its dots before anything else).
#[verifier::external_body]
fn decode_claims(token: &str, secret: &[u8]) -> (r: Result<(Option<String>, Option<u64>), String>)
    ensures
        !token@.contains('.') ==> r is Err,
{
    jsonwebtoken::decode::<serde_json::Map<String, serde_json::Value>>(
        token,
        &jsonwebtoken::DecodingKey::from_secret(secret),
        &jsonwebtoken::Validation::default(),
    ).map(
        |data| (
            data.claims.get("sub").and_then(|v| v.as_str()).map(|s| s.to_string()),
            data.claims.get("exp").and_then(|v| v.as_u64()),
        ),
    ).map_err(|e| e.to_string())
}

/// The token issued at login for `user_id` at `now_secs` (seconds since the Unix
/// epoch): subject the user id in decimal, expiring an hour later, signed with `secret`.
pub fn create_jwt_token(secret: &[u8], user_id: i32, now_secs: u64) -> (r: Result<String, String>)
    requires
        now_secs + TOKEN_LIFETIME_SECS <= u64::MAX,
    ensures
        r matches Ok(t) && t@ == jwt_encoding(
            secret@,
            signed_decimal(user_id as int),
            (now_secs + TOKEN_LIFETIME_SECS) as u64,
        ),
{
    let (sub, exp) = token_claims(user_id, now_secs);
    encode_claims(secret, sub.as_str(), exp)
}

/// The claims a token must carry once its signature and expiry are accepted: a string
/// subject and an unsigned expiry.
pub fn check_claims(decoded: Result<(Option<String>, Option<u64>), String>) -> (r: Result<(), String>)
    ensures
        decoded matches Err(e) ==> r == Err::<(), String>(e),
        decoded matches Ok((sub, exp)) ==> (sub is Some && exp is Some ==> r is Ok),
        decoded matches Ok((sub, exp)) ==> (sub is None ==> (r matches Err(m) && m@ == "missing field `sub`"@)),
        decoded matches Ok((sub, exp)) ==> (sub is Some && exp is None ==> (r matches Err(m) && m@
            == "missing field `exp`"@)),
{
    match decoded {
        Err(e) => Err(e),
        Ok((None, _)) => Err(String::from_str("missing field `sub`")),
        Ok((Some(_), None)) => Err(String::from_str("missing field `exp`")),
        Ok((Some(_), Some(_))) => Ok(()),
    }
}

/// Checks a token: its signature under `secret`, its expiry against the clock, and
/// that it carries a subject and an expiry. A token without a `.` is refused.
pub fn validate_jwt_token(token: &str, secret: &[u8]) -> (r: Result<(), String>)
    ensures
        !token@.contains('.') ==> r is Err,
{
    check_claims(decode_claims(token, secret))
}

/// Checks the `authorization` value of a request against the token secret: missing,
/// malformed (not `Bearer <token>`), or carrying a token that does not validate.
pub fn auth_guard(header: Option<&str>, secret: &[u8]) -> (r: Result<(), AuthError>)
    ensures
        header is None ==> (r matches Err(e) && e is MissingMetadata),
        header matches Some(h) ==> match bearer_token(h@) {
            None => r matches Err(e) && e is InvalidFormat,
            Some(t) => (!t.contains('.') ==> (r matches Err(e) && e is InvalidToken)) && (r is Err
                ==> (r matches Err(e) && e is InvalidToken)),
        },
{
    match authorization_token(header) {
        Err(e) => Err(e),
        Ok(token) => {
            let valid = validate_jwt_token(token, secret).is_ok();
            authorize(header, valid)
        },
    }
}

/// Where the registry keeps the files of library releases.
pub trait RegistryStorage {
    /// Stores the files of a release.
    fn save(&self, library: Library) -> Result<(), RegistryError>;

    /// The files stored for a library.
    fn load(&self, library: &str) -> Result<Vec<File>, RegistryError>;
}

/// Library files kept on the local file system under `registry_path`.
pub struct LocalStorage {
    pub storage: Local,
    pub registry_path: String,
}

impl LocalStorage {
    /// The directory of a library release: `<registry>/<name>/<version>`.
    pub fn release_dir(&self, name: &str, version: &str) -> (p: String)
        ensures
            p@ == join_spec(self.storage.registry_path@, join_spec(name@, version@)),
    {
        let library_path = FileSystem::join_paths(name, version);
        FileSystem::join_paths(self.storage.registry_path.as_str(), library_path.as_str())
    }

    /// The directory that `load` reads a library from: `<registry>/<library>`.
    pub fn library_dir(&self, library: &str) -> (p: String)
        ensures
            p@ == join_spec(self.storage.registry_path@, library@),
    {
        FileSystem::join_paths(self.storage.registry_path.as_str(), library)
    }
}

/// Builds the local storage of the registry.
pub struct StorageBuilder {
    pub store_path: String,
}

impl StorageBuilder {
    /// A builder for the default storage directory `plm_registry`.
    pub fn new() -> (b: Self)
        ensures
            b.store_path@ == DEFAULT_STORE_PATH@,
    {
        StorageBuilder { store_path: String::from_str(DEFAULT_STORE_PATH) }
    }

    /// Sets the storage directory.
    pub fn with_store_path(&mut self, storage_path: &str) -> (r: &mut Self)
        ensures
            r.store_path@ == storage_path@,
            *final(self) == *final(r),
    {
        self.store_path = String::from_str(storage_path);
        self
    }

    /// The local storage at the chosen directory.
    pub fn build(self) -> (s: LocalStorage)
        ensures
            s.storage.registry_path@ == self.store_path@,
            s.registry_path@ == self.store_path@,
    {
        LocalStorage {
            storage: Local { registry_path: self.store_path.clone() },
            registry_path: self.store_path.clone(),
        }
    }
}

/// Why a request was refused authentication.
pub enum AuthError {
    MissingMetadata,
    InvalidFormat,
    InvalidToken,
}

impl AuthError {
    /// The message sent back with the refusal.
    pub fn message(&self) -> (m: &'static str)
        ensures
            self is MissingMetadata ==> m@ == "Missing authorization metadata"@,
            self is InvalidFormat ==> m@ == "Invalid token format should be: Bearer <token>"@,
            self is InvalidToken ==> m@ == "No valid auth token"@,
    {
        match self {
            AuthError::MissingMetadata => "Missing authorization metadata",
            AuthError::InvalidFormat => "Invalid token format should be: Bearer <token>",
            AuthError::InvalidToken => "No valid auth token",
        }
    }
}

/// The token of an `authorization` value `Bearer <token>`, when the token is not empty.
pub open spec fn bearer_token(s: Seq<char>) -> Option<Seq<char>> {
    if has_prefix(s, "Bearer "@) && s.len() > "Bearer "@.len() {
        Some(s.skip("Bearer "@.len() as int))
    } else {
        None
    }
}

/// Extracts the token from an `authorization` value of the form `Bearer <token>`.
pub fn extract_bearer_token(s: &str) -> (r: Option<&str>)
    ensures
        match r {
            Some(t) => bearer_token(s@) == Some(t@),
            None => bearer_token(s@) is None,
        },
{
    let prefix = "Bearer ";
    proof {
        reveal_strlit("Bearer ");
    }
    let n = s.unicode_len();
    let m = prefix.unicode_len();
    if starts_with(s, prefix) && n > m {
        Some(s.substring_char(m, n))
    } else {
        None
    }
}

/// The first step of the authorization check: the token carried by the request's
/// `authorization` value, or why the request is refused without looking further.
pub fn authorization_token(header: Option<&str>) -> (r: Result<&str, AuthError>)
    ensures
        header is None ==> (r matches Err(e) && e is MissingMetadata),
        header matches Some(h) ==> match bearer_token(h@) {
            None => r matches Err(e) && e is InvalidFormat,
            Some(t) => r matches Ok(tok) && tok@ == t,
        },
{
    match header {
        None => Err(AuthError::MissingMetadata),
        Some(h) => match extract_bearer_token(h) {
            None => Err(AuthError::InvalidFormat),
            Some(t) => Ok(t),
        },
    }
}

/// The outcome of the authorization check once the token has been validated.
pub fn authorize(header: Option<&str>, token_is_valid: bool) -> (r: Result<(), AuthError>)
    ensures
        header is None ==> (r matches Err(e) && e is MissingMetadata),
        header matches Some(h) ==> match bearer_token(h@) {
            None => r matches Err(e) && e is InvalidFormat,
            Some(_) => if token_is_valid {
                r is Ok
            } else {
                r matches Err(e) && e is InvalidToken
            },
        },
{
    match authorization_token(header) {
        Err(e) => Err(e),
        Ok(_) => if token_is_valid {
            Ok(())
        } else {
            Err(AuthError::InvalidToken)
        },
    }
}

} // verus!
