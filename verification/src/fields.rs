//! Reading the registry configuration structures from a map, one key at a time.
//!
//! A reader is handed the map's keys in order. For each key it names the field to
//! read the value into, or refuses the key; once the map is exhausted it gives the
//! structure, or names a field that never came.
use crate::registry::{Config, Data, Local, Server, Storage, StorageBackend, S3};
use crate::text::str_equal;
use vstd::prelude::*;

verus! {

/// Why a map does not describe a structure.
#[derive(Debug, Clone, PartialEq, Eq)]
pub enum FieldError {
    /// The field came twice.
    Duplicate(String),
    /// The key names no field of the structure.
    Unknown(String),
    /// The field never came.
    Missing(String),
}

/// The error for a field that came twice.
pub open spec fn is_duplicate(r: FieldError, field: Seq<char>) -> bool {
    r matches FieldError::Duplicate(f) && f@ == field
}

/// The error for a key that names no field.
pub open spec fn is_unknown(r: FieldError, key: Seq<char>) -> bool {
    r matches FieldError::Unknown(k) && k@ == key
}

/// The error for a field that never came.
pub open spec fn is_missing(r: FieldError, field: Seq<char>) -> bool {
    r matches FieldError::Missing(f) && f@ == field
}

/// Why a sequence of keys is refused, as sequences of characters.
pub enum KeyError {
    Duplicate(Seq<char>),
    Unknown(Seq<char>),
}

/// The refusal of a key that a reader's error stands for (a reader's `field` never
/// gives `Missing`, which is no refusal of a key).
pub open spec fn key_error(e: FieldError) -> KeyError {
    match e {
        FieldError::Duplicate(k) => KeyError::Duplicate(k@),
        FieldError::Unknown(k) => KeyError::Unknown(k@),
        FieldError::Missing(k) => KeyError::Unknown(k@),
    }
}

/// One key handed to a reader that has seen the fields `seen`: a field already seen is
/// a duplicate; another field is now seen; any other key is passed over when
/// `lenient`, else refused.
pub open spec fn key_step(fields: Set<Seq<char>>, lenient: bool, seen: Set<Seq<char>>, key: Seq<char>) -> Result<Set<Seq<char>>, KeyError> {
    if fields.contains(key) {
        if seen.contains(key) {
            Err(KeyError::Duplicate(key))
        } else {
            Ok(seen.insert(key))
        }
    } else if lenient {
        Ok(seen)
    } else {
        Err(KeyError::Unknown(key))
    }
}

/// The keys of a map handed to a reader in order: the fields seen, or the first refusal.
pub open spec fn read_keys(fields: Set<Seq<char>>, lenient: bool, keys: Seq<Seq<char>>) -> Result<Set<Seq<char>>, KeyError>
    decreases keys.len(),
{
    if keys.len() == 0 {
        Ok(Set::empty())
    } else {
        match read_keys(fields, lenient, keys.drop_last()) {
            Err(e) => Err(e),
            Ok(seen) => key_step(fields, lenient, seen, keys.last()),
        }
    }
}

/// A map's keys are read without refusal exactly when no field comes twice and, unless
/// other keys are passed over, every key is a field; the fields seen are then those
/// among the keys.
pub proof fn lemma_read_keys(fields: Set<Seq<char>>, lenient: bool, keys: Seq<Seq<char>>)
    ensures
        read_keys(fields, lenient, keys) is Ok <==> (forall|i: int, j: int|
            0 <= i < j < keys.len() && fields.contains(#[trigger] keys[i]) ==> keys[i] != #[trigger] keys[j])
            && (!lenient ==> forall|i: int| 0 <= i < keys.len() ==> fields.contains(#[trigger] keys[i])),
        read_keys(fields, lenient, keys) matches Ok(seen) ==> forall|k: Seq<char>|
            #[trigger] seen.contains(k) <==> fields.contains(k) && keys.contains(k),
    decreases keys.len(),
{
    if keys.len() > 0 {
        let p = keys.drop_last();
        lemma_read_keys(fields, lenient, p);
        let last = keys.last();
        assert forall|i: int| 0 <= i < p.len() implies #[trigger] p[i] == keys[i] by {}
        assert(keys[keys.len() - 1] == last);
        assert forall|k: Seq<char>| keys.contains(k) <==> p.contains(k) || k == last by {
            if keys.contains(k) {
                let i = choose|i: int| 0 <= i < keys.len() && keys[i] == k;
                if i < p.len() {
                    assert(p[i] == k);
                }
            }
            if p.contains(k) {
                let i = choose|i: int| 0 <= i < p.len() && p[i] == k;
                assert(keys[i] == k);
            }
        }
        match read_keys(fields, lenient, p) {
            Err(_) => {
                if (forall|i: int, j: int|
                    0 <= i < j < keys.len() && fields.contains(#[trigger] keys[i]) ==> keys[i] != #[trigger] keys[j])
                    && (!lenient ==> forall|i: int| 0 <= i < keys.len() ==> fields.contains(#[trigger] keys[i])) {
                    assert forall|i: int, j: int|
                        0 <= i < j < p.len() && fields.contains(#[trigger] p[i]) implies p[i] != #[trigger] p[j] by {
                        assert(keys[i] == p[i] && keys[j] == p[j]);
                    }
                    if !lenient {
                        assert forall|i: int| 0 <= i < p.len() implies fields.contains(#[trigger] p[i]) by {
                            assert(keys[i] == p[i]);
                        }
                    }
                }
            },
            Ok(seen) => {
                if fields.contains(last) && seen.contains(last) {
                    let i = choose|i: int| 0 <= i < p.len() && p[i] == last;
                    assert(keys[i] == keys[keys.len() - 1]);
                } else if !fields.contains(last) && !lenient {
                } else {
                    assert forall|i: int, j: int|
                        0 <= i < j < keys.len() && fields.contains(#[trigger] keys[i]) implies keys[i] != #[trigger] keys[j] by {
                        if j == keys.len() - 1 {
                            assert(p[i] == keys[i]);
                            assert(p.contains(p[i]));
                        } else {
                            assert(keys[i] == p[i] && keys[j] == p[j]);
                        }
                    }
                    if !lenient {
                        assert forall|i: int| 0 <= i < keys.len() implies fields.contains(#[trigger] keys[i]) by {
                            if i < p.len() {
                                assert(keys[i] == p[i]);
                            }
                        }
                    }
                }
            },
        }
    }
}

/// The keys of `Data`.
pub open spec fn data_fields() -> Set<Seq<char>> {
    set!["host"@, "username"@, "password"@]
}

/// The key of a field of `Data`.
pub open spec fn data_field_name(f: DataField) -> Seq<char> {
    match f {
        DataField::Host => "host"@,
        DataField::Username => "username"@,
        DataField::Password => "password"@,
    }
}

proof fn lemma_data_keys()
    ensures
        "host"@ != "username"@,
        "host"@ != "password"@,
        "username"@ != "password"@,
        data_fields().contains("host"@),
        data_fields().contains("username"@),
        data_fields().contains("password"@),
        forall|k: Seq<char>| #[trigger] data_fields().contains(k) <==> k == "host"@ || k == "username"@ || k == "password"@,
{
    reveal_strlit("host");
    reveal_strlit("username");
    reveal_strlit("password");
    assert("host"@.len() != "username"@.len());
    assert("host"@.len() != "password"@.len());
    assert("username"@[0] != "password"@[0]);
}

/// The fields a `Data` reader has seen.
pub open spec fn data_seen(r: DataReader) -> Set<Seq<char>> {
    Set::new(
        |k: Seq<char>|
            (k == "host"@ && r.host is Some) || (k == "username"@ && r.username is Some) || (k
                == "password"@ && r.password is Some),
    )
}

/// A field of `Data`.
#[derive(Debug, Clone, Copy, PartialEq, Eq)]
pub enum DataField {
    Host,
    Username,
    Password,
}

/// Reads `Data` from a map with the keys `host`, `username` and `password`, each once;
/// any other key is refused.
pub struct DataReader {
    pub host: Option<String>,
    pub username: Option<String>,
    pub password: Option<String>,
}

impl DataReader {
    /// A reader that has seen no field.
    pub fn new() -> (r: Self)
        ensures
            r.host is None,
            r.username is None,
            r.password is None,
    {
        DataReader { host: None, username: None, password: None }
    }

    /// The field `key` names, or why it is refused.
    pub fn field(&self, key: &str) -> (r: Result<DataField, FieldError>)
        ensures
            key@ == "host"@ ==> (if self.host is Some {
                r matches Err(e) && is_duplicate(e, "host"@)
            } else {
                r == Ok::<DataField, FieldError>(DataField::Host)
            }),
            key@ == "username"@ ==> (if self.username is Some {
                r matches Err(e) && is_duplicate(e, "username"@)
            } else {
                r == Ok::<DataField, FieldError>(DataField::Username)
            }),
            key@ == "password"@ ==> (if self.password is Some {
                r matches Err(e) && is_duplicate(e, "password"@)
            } else {
                r == Ok::<DataField, FieldError>(DataField::Password)
            }),
            key@ != "host"@ && key@ != "username"@ && key@ != "password"@ ==> (r matches Err(e)
                && is_unknown(e, key@)),
            key_step(data_fields(), false, data_seen(*self), key@) == (match r {
                Ok(f) => Ok::<Set<Seq<char>>, KeyError>(data_seen(*self).insert(data_field_name(f))),
                Err(e) => Err(key_error(e)),
            }),
            r matches Ok(f) ==> data_field_name(f) == key@,
    {
        proof {
            lemma_data_keys();
            reveal_strlit("host");
            reveal_strlit("username");
            reveal_strlit("password");
            assert("host"@ != "username"@) by {
                assert("host"@.len() != "username"@.len() || "host"@[0] != "username"@[0]);
            }
            assert("host"@ != "password"@) by {
                assert("host"@.len() != "password"@.len() || "host"@[0] != "password"@[0]);
            }
            assert("username"@ != "password"@) by {
                assert("username"@.len() != "password"@.len() || "username"@[0] != "password"@[0]);
            }
        }
        if str_equal(key, "host") {
            if self.host.is_some() {
                Err(FieldError::Duplicate(String::from_str("host")))
            } else {
                Ok(DataField::Host)
            }
        } else if str_equal(key, "username") {
            if self.username.is_some() {
                Err(FieldError::Duplicate(String::from_str("username")))
            } else {
                Ok(DataField::Username)
            }
        } else if str_equal(key, "password") {
            if self.password.is_some() {
                Err(FieldError::Duplicate(String::from_str("password")))
            } else {
                Ok(DataField::Password)
            }
        } else {
            Err(FieldError::Unknown(String::from_str(key)))
        }
    }

    /// Records the value read for `field`.
    pub fn set(&mut self, field: DataField, value: String)
        ensures
            final(self).host == (if field == DataField::Host { Some(value) } else { old(self).host }),
            final(self).username == (if field == DataField::Username { Some(value) } else { old(self).username }),
            final(self).password == (if field == DataField::Password { Some(value) } else { old(self).password }),
            data_seen(*final(self)) == data_seen(*old(self)).insert(data_field_name(field)),
    {
        proof {
            lemma_data_keys();
        }
        let ghost before = *self;
        match field {
            DataField::Host => self.host = Some(value),
            DataField::Username => self.username = Some(value),
            DataField::Password => self.password = Some(value),
        }
        assert(data_seen(*self) =~= data_seen(before).insert(data_field_name(field)));
    }

    /// The `Data` read, or the first of `host`, `username`, `password` that never came.
    pub fn finish(self) -> (r: Result<Data, FieldError>)
        ensures
            self.host is None ==> (r matches Err(e) && is_missing(e, "host"@)),
            self.host is Some && self.username is None ==> (r matches Err(e) && is_missing(
                e,
                "username"@,
            )),
            self.host is Some && self.username is Some && self.password is None ==> (r matches Err(e)
                && is_missing(e, "password"@)),
            self.host is Some && self.username is Some && self.password is Some ==> r == Ok::<
                Data,
                FieldError,
            >((Data { host: self.host->0, username: self.username->0, password: self.password->0 })),
            r is Ok <==> data_fields().subset_of(data_seen(self)),
    {
        proof {
            lemma_data_keys();
            assert(data_seen(self).contains("host"@) == self.host is Some);
            assert(data_seen(self).contains("username"@) == self.username is Some);
            assert(data_seen(self).contains("password"@) == self.password is Some);
            assert(data_fields().contains("host"@));
            assert(data_fields().contains("username"@));
            assert(data_fields().contains("password"@));
        }
        match (self.host, self.username, self.password) {
            (None, _, _) => Err(FieldError::Missing(String::from_str("host"))),
            (Some(_), None, _) => Err(FieldError::Missing(String::from_str("username"))),
            (Some(_), Some(_), None) => Err(FieldError::Missing(String::from_str("password"))),
            (Some(host), Some(username), Some(password)) => Ok(Data { host, username, password }),
        }
    }
}

/// A field of `Server`.
#[derive(Debug, Clone, Copy, PartialEq, Eq)]
pub enum ServerField {
    Port,
    Host,
}

/// Reads `Server` from a map with the keys `port` and `host`, each once; any other key
/// is refused. The log level is not read and is 0.
pub struct ServerReader {
    pub port: Option<u32>,
    pub host: Option<String>,
}

impl ServerReader {
    /// A reader that has seen no field.
    pub fn new() -> (r: Self)
        ensures
            r.port is None,
            r.host is None,
    {
        ServerReader { port: None, host: None }
    }

    /// The field `key` names, or why it is refused.
    pub fn field(&self, key: &str) -> (r: Result<ServerField, FieldError>)
        ensures
            key@ == "port"@ ==> (if self.port is Some {
                r matches Err(e) && is_duplicate(e, "port"@)
            } else {
                r == Ok::<ServerField, FieldError>(ServerField::Port)
            }),
            key@ == "host"@ ==> (if self.host is Some {
                r matches Err(e) && is_duplicate(e, "host"@)
            } else {
                r == Ok::<ServerField, FieldError>(ServerField::Host)
            }),
            key@ != "port"@ && key@ != "host"@ ==> (r matches Err(e) && is_unknown(e, key@)),
    {
        proof {
            reveal_strlit("port");
            reveal_strlit("host");
            assert("port"@ != "host"@) by {
                assert("port"@.len() != "host"@.len() || "port"@[0] != "host"@[0]);
            }
        }
        if str_equal(key, "port") {
            if self.port.is_some() {
                Err(FieldError::Duplicate(String::from_str("port")))
            } else {
                Ok(ServerField::Port)
            }
        } else if str_equal(key, "host") {
            if self.host.is_some() {
                Err(FieldError::Duplicate(String::from_str("host")))
            } else {
                Ok(ServerField::Host)
            }
        } else {
            Err(FieldError::Unknown(String::from_str(key)))
        }
    }

    /// Records the port read.
    pub fn set_port(&mut self, port: u32)
        ensures
            final(self).port == Some(port),
            final(self).host == old(self).host,
    {
        self.port = Some(port);
    }

    /// Records the host read.
    pub fn set_host(&mut self, host: String)
        ensures
            final(self).host == Some(host),
            final(self).port == old(self).port,
    {
        self.host = Some(host);
    }

    /// The `Server` read, or the first of `port`, `host` that never came.
    pub fn finish(self) -> (r: Result<Server, FieldError>)
        ensures
            self.port is None ==> (r matches Err(e) && is_missing(e, "port"@)),
            self.port is Some && self.host is None ==> (r matches Err(e) && is_missing(e, "host"@)),
            self.port is Some && self.host is Some ==> r == Ok::<Server, FieldError>(
                (Server { host: self.host->0, port: self.port->0, log_level: 0 }),
            ),
    {
        match (self.port, self.host) {
            (None, _) => Err(FieldError::Missing(String::from_str("port"))),
            (Some(_), None) => Err(FieldError::Missing(String::from_str("host"))),
            (Some(port), Some(host)) => Ok(Server { host, port, log_level: 0 }),
        }
    }
}

/// Reads a structure with one text field, named `name`, from a map with that key and
/// no other. A repeated key keeps the last value.
pub struct SingleFieldReader {
    pub name: String,
    pub value: Option<String>,
}

impl SingleFieldReader {
    /// The reader of `Local`: the key `registryPath`.
    pub fn local() -> (r: Self)
        ensures
            r.name@ == "registryPath"@,
            r.value is None,
    {
        SingleFieldReader { name: String::from_str("registryPath"), value: None }
    }

    /// The reader of `S3`: the key `bucketName`.
    pub fn s3() -> (r: Self)
        ensures
            r.name@ == "bucketName"@,
            r.value is None,
    {
        SingleFieldReader { name: String::from_str("bucketName"), value: None }
    }

    /// Whether `key` is the field, else why it is refused.
    pub fn field(&self, key: &str) -> (r: Result<(), FieldError>)
        ensures
            key@ == self.name@ ==> r is Ok,
            key@ != self.name@ ==> (r matches Err(e) && is_unknown(e, key@)),
    {
        if str_equal(key, self.name.as_str()) {
            Ok(())
        } else {
            Err(FieldError::Unknown(String::from_str(key)))
        }
    }

    /// Records the value read.
    pub fn set(&mut self, value: String)
        ensures
            final(self).value == Some(value),
            final(self).name == old(self).name,
    {
        self.value = Some(value);
    }

    /// The value read, or the field's name as missing.
    pub fn finish(self) -> (r: Result<String, FieldError>)
        ensures
            self.value matches Some(v) ==> r == Ok::<String, FieldError>(v),
            self.value is None ==> (r matches Err(e) && is_missing(e, self.name@)),
    {
        match self.value {
            Some(v) => Ok(v),
            None => Err(FieldError::Missing(self.name)),
        }
    }
}

/// The `Local` storage read by a `registryPath` reader.
pub fn finish_local(reader: SingleFieldReader) -> (r: Result<Local, FieldError>)
    ensures
        reader.value matches Some(v) ==> r == Ok::<Local, FieldError>((Local { registry_path: v })),
        reader.value is None ==> (r matches Err(e) && is_missing(e, reader.name@)),
{
    match reader.finish() {
        Ok(v) => Ok(Local { registry_path: v }),
        Err(e) => Err(e),
    }
}

/// The `S3` storage read by a `bucketName` reader.
pub fn finish_s3(reader: SingleFieldReader) -> (r: Result<S3, FieldError>)
    ensures
        reader.value matches Some(v) ==> r == Ok::<S3, FieldError>((S3 { bucket_name: v })),
        reader.value is None ==> (r matches Err(e) && is_missing(e, reader.name@)),
{
    match reader.finish() {
        Ok(v) => Ok(S3 { bucket_name: v }),
        Err(e) => Err(e),
    }
}

/// A kind of storage backend.
#[derive(Debug, Clone, Copy, PartialEq, Eq)]
pub enum BackendField {
    Local,
    S3,
}

/// The keys of a storage backend.
pub open spec fn backend_fields() -> Set<Seq<char>> {
    set!["local"@, "s3"@]
}

/// The key of a kind of storage backend.
pub open spec fn backend_field_name(f: BackendField) -> Seq<char> {
    match f {
        BackendField::Local => "local"@,
        BackendField::S3 => "s3"@,
    }
}

/// The kinds of storage a backend reader has seen.
pub open spec fn backend_seen(r: BackendReader) -> Set<Seq<char>> {
    Set::new(|k: Seq<char>| (k == "local"@ && r.local is Some) || (k == "s3"@ && r.s3 is Some))
}

proof fn lemma_backend_keys()
    ensures
        "local"@ != "s3"@,
        forall|k: Seq<char>| #[trigger] backend_fields().contains(k) <==> k == "local"@ || k == "s3"@,
{
    reveal_strlit("local");
    reveal_strlit("s3");
    assert("local"@.len() != "s3"@.len());
}

/// Reads a `StorageBackend` from a map with the keys `local` and `s3`, each at most
/// once; any other key is refused. Where both come, the local storage is taken.
pub struct BackendReader {
    pub local: Option<Local>,
    pub s3: Option<S3>,
}

impl BackendReader {
    /// A reader that has seen no field.
    pub fn new() -> (r: Self)
        ensures
            r.local is None,
            r.s3 is None,
    {
        BackendReader { local: None, s3: None }
    }

    /// The field `key` names, or why it is refused.
    pub fn field(&self, key: &str) -> (r: Result<BackendField, FieldError>)
        ensures
            key@ == "local"@ ==> (if self.local is Some {
                r matches Err(e) && is_duplicate(e, "local"@)
            } else {
                r == Ok::<BackendField, FieldError>(BackendField::Local)
            }),
            key@ == "s3"@ ==> (if self.s3 is Some {
                r matches Err(e) && is_duplicate(e, "s3"@)
            } else {
                r == Ok::<BackendField, FieldError>(BackendField::S3)
            }),
            key@ != "local"@ && key@ != "s3"@ ==> (r matches Err(e) && is_unknown(e, key@)),
            key_step(backend_fields(), false, backend_seen(*self), key@) == (match r {
                Ok(f) => Ok::<Set<Seq<char>>, KeyError>(backend_seen(*self).insert(backend_field_name(f))),
                Err(e) => Err(key_error(e)),
            }),
            r matches Ok(f) ==> backend_field_name(f) == key@,
    {
        proof {
            lemma_backend_keys();
            reveal_strlit("local");
            reveal_strlit("s3");
            assert("local"@ != "s3"@) by {
                assert("local"@.len() != "s3"@.len() || "local"@[0] != "s3"@[0]);
            }
        }
        if str_equal(key, "local") {
            if self.local.is_some() {
                Err(FieldError::Duplicate(String::from_str("local")))
            } else {
                Ok(BackendField::Local)
            }
        } else if str_equal(key, "s3") {
            if self.s3.is_some() {
                Err(FieldError::Duplicate(String::from_str("s3")))
            } else {
                Ok(BackendField::S3)
            }
        } else {
            Err(FieldError::Unknown(String::from_str(key)))
        }
    }

    /// Records the local storage read.
    pub fn set_local(&mut self, local: Local)
        ensures
            final(self).local == Some(local),
            final(self).s3 == old(self).s3,
            backend_seen(*final(self)) == backend_seen(*old(self)).insert("local"@),
    {
        let ghost before = *self;
        self.local = Some(local);
        assert(backend_seen(*self) =~= backend_seen(before).insert("local"@));
    }

    /// Records the S3 storage read.
    pub fn set_s3(&mut self, s3: S3)
        ensures
            final(self).s3 == Some(s3),
            final(self).local == old(self).local,
            backend_seen(*final(self)) == backend_seen(*old(self)).insert("s3"@),
    {
        proof {
            lemma_backend_keys();
        }
        let ghost before = *self;
        self.s3 = Some(s3);
        assert(backend_seen(*self) =~= backend_seen(before).insert("s3"@));
    }

    /// The backend read: the local storage where there is one, else the S3 one, else
    /// `storage_backend` is missing.
    pub fn finish(self) -> (r: Result<StorageBackend, FieldError>)
        ensures
            self.local matches Some(l) ==> r == Ok::<StorageBackend, FieldError>(StorageBackend::Local(l)),
            self.local is None && self.s3 is Some ==> r == Ok::<StorageBackend, FieldError>(
                StorageBackend::S3(self.s3->0),
            ),
            self.local is None && self.s3 is None ==> (r matches Err(e) && is_missing(
                e,
                "storage_backend"@,
            )),
            r is Ok <==> backend_seen(self) != Set::<Seq<char>>::empty(),
    {
        proof {
            lemma_backend_keys();
            if self.local is Some {
                assert(backend_seen(self).contains("local"@));
            }
            if self.s3 is Some {
                assert(backend_seen(self).contains("s3"@));
            }
            if self.local is None && self.s3 is None {
                assert(backend_seen(self) =~= Set::<Seq<char>>::empty());
            }
        }
        match (self.local, self.s3) {
            (Some(l), _) => Ok(StorageBackend::Local(l)),
            (None, Some(s)) => Ok(StorageBackend::S3(s)),
            (None, None) => Err(FieldError::Missing(String::from_str("storage_backend"))),
        }
    }
}

/// The storage section: the backend read, always present.
pub fn storage_of(backend: StorageBackend) -> (r: Storage)
    ensures
        r == (Storage { storage_backend: Some(backend) }),
{
    Storage { storage_backend: Some(backend) }
}

/// A field of `Config`, or a key to pass over.
#[derive(Debug, Clone, Copy, PartialEq, Eq)]
pub enum ConfigField {
    Storage,
    Server,
    Data,
    Ignored,
}

/// The sections of a configuration.
pub open spec fn config_fields() -> Set<Seq<char>> {
    set!["storage"@, "server"@, "data"@]
}

/// The sections a configuration reader has seen.
pub open spec fn config_seen(r: ConfigReader) -> Set<Seq<char>> {
    Set::new(
        |k: Seq<char>|
            (k == "storage"@ && r.storage is Some) || (k == "server"@ && r.server is Some) || (k == "data"@
                && r.data is Some),
    )
}

/// The sections seen once the value of a key is recorded.
pub open spec fn config_after(seen: Set<Seq<char>>, f: ConfigField) -> Set<Seq<char>> {
    match f {
        ConfigField::Storage => seen.insert("storage"@),
        ConfigField::Server => seen.insert("server"@),
        ConfigField::Data => seen.insert("data"@),
        ConfigField::Ignored => seen,
    }
}

proof fn lemma_config_keys()
    ensures
        "storage"@ != "server"@,
        "storage"@ != "data"@,
        "server"@ != "data"@,
        forall|k: Seq<char>| #[trigger] config_fields().contains(k) <==> k == "storage"@ || k == "server"@ || k
            == "data"@,
{
    reveal_strlit("storage");
    reveal_strlit("server");
    reveal_strlit("data");
    assert("storage"@.len() != "server"@.len());
    assert("storage"@.len() != "data"@.len());
    assert("server"@.len() != "data"@.len());
}

/// Reads a `Config` from a map with the keys `storage`, `server` and `data`, each at
/// most once; the value of any other key is passed over. A section that never comes
/// is absent.
pub struct ConfigReader {
    pub storage: Option<Storage>,
    pub server: Option<Server>,
    pub data: Option<Data>,
}

impl ConfigReader {
    /// A reader that has seen no field.
    pub fn new() -> (r: Self)
        ensures
            r.storage is None,
            r.server is None,
            r.data is None,
    {
        ConfigReader { storage: None, server: None, data: None }
    }

    /// The section `key` names, `Ignored` for another key, or why it is refused.
    pub fn field(&self, key: &str) -> (r: Result<ConfigField, FieldError>)
        ensures
            key@ == "storage"@ ==> (if self.storage is Some {
                r matches Err(e) && is_duplicate(e, "storage"@)
            } else {
                r == Ok::<ConfigField, FieldError>(ConfigField::Storage)
            }),
            key@ == "server"@ ==> (if self.server is Some {
                r matches Err(e) && is_duplicate(e, "server"@)
            } else {
                r == Ok::<ConfigField, FieldError>(ConfigField::Server)
            }),
            key@ == "data"@ ==> (if self.data is Some {
                r matches Err(e) && is_duplicate(e, "data"@)
            } else {
                r == Ok::<ConfigField, FieldError>(ConfigField::Data)
            }),
            key@ != "storage"@ && key@ != "server"@ && key@ != "data"@ ==> r == Ok::<
                ConfigField,
                FieldError,
            >(ConfigField::Ignored),
            key_step(config_fields(), true, config_seen(*self), key@) == (match r {
                Ok(f) => Ok::<Set<Seq<char>>, KeyError>(config_after(config_seen(*self), f)),
                Err(e) => Err(key_error(e)),
            }),
    {
        proof {
            lemma_config_keys();
            reveal_strlit("storage");
            reveal_strlit("server");
            reveal_strlit("data");
            assert("storage"@ != "server"@) by {
                assert("storage"@.len() != "server"@.len() || "storage"@[0] != "server"@[0]);
            }
            assert("storage"@ != "data"@) by {
                assert("storage"@.len() != "data"@.len() || "storage"@[0] != "data"@[0]);
            }
            assert("server"@ != "data"@) by {
                assert("server"@.len() != "data"@.len() || "server"@[0] != "data"@[0]);
            }
        }
        if str_equal(key, "storage") {
            if self.storage.is_some() {
                Err(FieldError::Duplicate(String::from_str("storage")))
            } else {
                Ok(ConfigField::Storage)
            }
        } else if str_equal(key, "server") {
            if self.server.is_some() {
                Err(FieldError::Duplicate(String::from_str("server")))
            } else {
                Ok(ConfigField::Server)
            }
        } else if str_equal(key, "data") {
            if self.data.is_some() {
                Err(FieldError::Duplicate(String::from_str("data")))
            } else {
                Ok(ConfigField::Data)
            }
        } else {
            Ok(ConfigField::Ignored)
        }
    }

    /// Records the storage section read.
    pub fn set_storage(&mut self, storage: Storage)
        ensures
            final(self).storage == Some(storage),
            final(self).server == old(self).server,
            final(self).data == old(self).data,
            config_seen(*final(self)) == config_seen(*old(self)).insert("storage"@),
    {
        proof {
            lemma_config_keys();
        }
        let ghost before = *self;
        self.storage = Some(storage);
        assert(config_seen(*self) =~= config_seen(before).insert("storage"@));
    }

    /// Records the server section read.
    pub fn set_server(&mut self, server: Server)
        ensures
            final(self).server == Some(server),
            final(self).storage == old(self).storage,
            final(self).data == old(self).data,
            config_seen(*final(self)) == config_seen(*old(self)).insert("server"@),
    {
        proof {
            lemma_config_keys();
        }
        let ghost before = *self;
        self.server = Some(server);
        assert(config_seen(*self) =~= config_seen(before).insert("server"@));
    }

    /// Records the data section read.
    pub fn set_data(&mut self, data: Data)
        ensures
            final(self).data == Some(data),
            final(self).storage == old(self).storage,
            final(self).server == old(self).server,
            config_seen(*final(self)) == config_seen(*old(self)).insert("data"@),
    {
        proof {
            lemma_config_keys();
        }
        let ghost before = *self;
        self.data = Some(data);
        assert(config_seen(*self) =~= config_seen(before).insert("data"@));
    }

    /// The configuration read; absent sections stay absent.
    pub fn finish(self) -> (r: Config)
        ensures
            r == (Config { data: self.data, server: self.server, storage: self.storage }),
    {
        Config { data: self.data, server: self.server, storage: self.storage }
    }
}

} // verus!
