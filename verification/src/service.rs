//! The decisions of the registry's request handlers. Each handler alternates
//! database or storage work with decisions; the decisions are the steps below,
//! each taking what the last piece of work returned and giving either the next
//! piece of work to do or the final answer.
use crate::cli::{lemma_upsert_keeps_keys_unique, pairs_of, unique_keys, upsert_pair, upsert_spec};
use crate::registry::{create_jwt_token, jwt_encoding, signed_decimal, TOKEN_LIFETIME_SECS};
use crate::store::{File, Library, Package};
use crate::text::to_decimal;
use vstd::prelude::*;

verus! {

/// The status a request is answered with when it fails.
#[derive(Debug, Clone, PartialEq, Eq)]
pub enum Status {
    InvalidArgument(String),
    NotFound(String),
    Internal(String),
    Unimplemented(String),
    AlreadyExists(String),
    Unauthenticated(String),
}

/// What a download asks for: a library by name, or a part of one.
pub enum FullOrPartial {
    Full(String),
    Partial(String),
}

fn join2(a: &str, b: &str) -> (r: String)
    ensures
        r@ == a@ + b@,
{
    let mut s = String::from_str(a);
    s.append(b);
    s
}

fn join3(a: &str, b: &str, c: &str) -> (r: String)
    ensures
        r@ == a@ + b@ + c@,
{
    let mut s = String::from_str(a);
    s.append(b);
    s.append(c);
    s
}

fn join4(a: &str, b: &str, c: &str, d: &str) -> (r: String)
    ensures
        r@ == a@ + b@ + c@ + d@,
{
    let mut s = join3(a, b, c);
    s.append(d);
    s
}

/// Download, first step: the name of the library asked for.
pub fn download_target(request: Option<FullOrPartial>) -> (r: Result<String, Status>)
    ensures
        request is None ==> (r matches Err(Status::InvalidArgument(m)) && m@
            == "must specify a download request full/partial"@),
        request matches Some(FullOrPartial::Partial(_)) ==> (r matches Err(Status::Unimplemented(m))
            && m@ == "not implemented yet"@),
        request matches Some(FullOrPartial::Full(name)) ==> r == Ok::<String, Status>(name),
{
    match request {
        None => Err(Status::InvalidArgument(String::from_str("must specify a download request full/partial"))),
        Some(FullOrPartial::Partial(_)) => Err(Status::Unimplemented(String::from_str("not implemented yet"))),
        Some(FullOrPartial::Full(full)) => Ok(full),
    }
}

/// Download, second step: given the lookup of the latest version of `name`
/// (its id, or a description of the failure), the version id to fetch.
pub fn download_latest(name: &str, latest: Result<Option<i32>, String>) -> (r: Result<i32, Status>)
    ensures
        latest matches Err(e) ==> (r matches Err(Status::NotFound(m)) && m@ == "failed to fetch library: "@
            + name@ + " - "@ + e@),
        latest matches Ok(None) ==> (r matches Err(Status::Unimplemented(m)) && m@
            == "not implemented yet to install a pinned version: "@ + name@),
        latest matches Ok(Some(id)) ==> r == Ok::<i32, Status>(id),
{
    match latest {
        Err(e) => Err(Status::NotFound(join4("failed to fetch library: ", name, " - ", e.as_str()))),
        Ok(None) => Err(Status::Unimplemented(join2("not implemented yet to install a pinned version: ", name))),
        Ok(Some(id)) => Ok(id),
    }
}

/// A library release found in the database: its name and its version numbers.
pub struct Release {
    pub name: String,
    pub versions: Vec<String>,
}

/// Download, third step: given the lookup of the release, the library's name, its
/// version (the last one listed) and the storage path `name/version` to load files from.
pub fn download_release(name: &str, release: Result<Option<Release>, String>) -> (r: Result<(String, String, String), Status>)
    requires
        release matches Ok(Some(rel)) ==> rel.versions@.len() > 0,
    ensures
        release matches Err(e) ==> (r matches Err(Status::Internal(m)) && m@ == "error on fetching library: "@
            + e@),
        release matches Ok(None) ==> (r matches Err(Status::NotFound(m)) && m@
            == "library release not found: "@ + name@),
        release matches Ok(Some(rel)) ==> (r matches Ok((n, v, p)) && n@ == rel.name@ && v@
            == rel.versions@.last()@ && p@ == rel.name@ + "/"@ + rel.versions@.last()@),
{
    match release {
        Err(e) => Err(Status::Internal(join2("error on fetching library: ", e.as_str()))),
        Ok(None) => Err(Status::NotFound(join2("library release not found: ", name))),
        Ok(Some(rel)) => {
            let n = rel.versions.len();
            let version = rel.versions[n - 1].clone();
            let path = join3(rel.name.as_str(), "/", version.as_str());
            Ok((rel.name, version, path))
        },
    }
}

/// Download, last step: given the files loaded from storage, the library sent back:
/// one unnamed package holding the files.
pub fn download_response(name: String, version: String, files: Result<Vec<File>, String>) -> (r: Result<Library, Status>)
    ensures
        files matches Err(e) ==> (r matches Err(Status::Internal(m)) && m@ == "failed to fetch proto files: "@
            + e@),
        files matches Ok(fs) ==> (r matches Ok(lib) && lib.name == name && lib.version == version
            && lib.packages@.len() == 1 && lib.packages@[0].files == fs && lib.packages@[0].name@.len()
            == 0 && lib.packages@[0].metadata@.len() == 0 && lib.metadata@.len() == 0 && lib.fd_set@.len() == 0),
{
    match files {
        Err(e) => Err(Status::Internal(join2("failed to fetch proto files: ", e.as_str()))),
        Ok(fs) => {
            let mut packages: Vec<Package> = Vec::new();
            packages.push(Package { name: String::new(), files: fs, metadata: Vec::new() });
            Ok(Library { name, version, fd_set: Vec::new(), metadata: Vec::new(), packages })
        },
    }
}

/// A user found in the database: id and stored password hash.
pub struct StoredUser {
    pub user_id: i32,
    pub password_hash: String,
}

/// Login, first step: given the lookup of the user, the user to check the password of.
pub fn login_user(username: &str, user: Result<Option<StoredUser>, String>) -> (r: Result<StoredUser, Status>)
    ensures
        user matches Err(e) ==> (r matches Err(Status::Internal(m)) && m@ == "failed to get user: "@ + username@
            + " - "@ + e@),
        user matches Ok(None) ==> (r matches Err(Status::NotFound(m)) && m@ == "username not exists"@),
        user matches Ok(Some(u)) ==> r == Ok::<StoredUser, Status>(u),
{
    match user {
        Err(e) => Err(Status::Internal(join4("failed to get user: ", username, " - ", e.as_str()))),
        Ok(None) => Err(Status::NotFound(String::from_str("username not exists"))),
        Ok(Some(u)) => Ok(u),
    }
}

/// Login, second step: given the password check, whether a token is to be made.
pub fn login_verified(username: &str, verified: Result<bool, String>) -> (r: Result<(), Status>)
    ensures
        verified matches Err(e) ==> (r matches Err(Status::Internal(m)) && m@ == "failed to verify user "@
            + username@ + " password - "@ + e@),
        verified matches Ok(false) ==> (r matches Err(Status::Unauthenticated(m)) && m@
            == "invalid password"@),
        verified matches Ok(true) ==> r is Ok,
{
    match verified {
        Err(e) => Err(Status::Internal(join4("failed to verify user ", username, " password - ", e.as_str()))),
        Ok(false) => Err(Status::Unauthenticated(String::from_str("invalid password"))),
        Ok(true) => Ok(()),
    }
}

/// Login, last step: given the token made, the answer.
pub fn login_token(token: Result<String, String>) -> (r: Result<String, Status>)
    ensures
        token matches Err(e) ==> (r matches Err(Status::Internal(m)) && m@ == "failed to generate token: "@ + e@),
        token matches Ok(t) ==> r == Ok::<String, Status>(t),
{
    match token {
        Err(e) => Err(Status::Internal(join2("failed to generate token: ", e.as_str()))),
        Ok(t) => Ok(t),
    }
}

/// Login, last step once the password is accepted: the token issued for `user_id` at
/// `now_secs`, signed with `secret`, its subject the user id and its expiry an hour on.
pub fn issue_login_token(secret: &[u8], user_id: i32, now_secs: u64) -> (r: Result<String, Status>)
    requires
        now_secs + TOKEN_LIFETIME_SECS <= u64::MAX,
    ensures
        r matches Ok(t) && t@ == jwt_encoding(
            secret@,
            signed_decimal(user_id as int),
            (now_secs + TOKEN_LIFETIME_SECS) as u64,
        ),
{
    login_token(create_jwt_token(secret, user_id, now_secs))
}

/// Creating a user: given the hashing of the password, the hash to store.
pub fn create_user_hash(hashed: Result<String, String>) -> (r: Result<String, Status>)
    ensures
        hashed matches Err(e) ==> (r matches Err(Status::Internal(m)) && m@ == "failed to hash user password: "@
            + e@),
        hashed matches Ok(h) ==> r == Ok::<String, Status>(h),
{
    match hashed {
        Err(e) => Err(Status::Internal(join2("failed to hash user password: ", e.as_str()))),
        Ok(h) => Ok(h),
    }
}

/// How the publishing transaction ended.
pub enum PublishOutcome {
    Committed,
    UniqueViolation,
    OtherDatabaseError(String),
    OtherError(String),
}

/// Publish, last step: the answer for the transaction's outcome. A release that
/// exists already is refused as such.
pub fn publish_result(outcome: PublishOutcome) -> (r: Result<(), Status>)
    ensures
        outcome is Committed ==> r is Ok,
        outcome is UniqueViolation ==> (r matches Err(Status::AlreadyExists(m)) && m@
            == "release is already exists, try to publish with a different version."@),
        outcome matches PublishOutcome::OtherDatabaseError(k) ==> (r matches Err(Status::Internal(m)) && m@
            == "some error occurred during db session: "@ + k@),
        outcome matches PublishOutcome::OtherError(e) ==> (r matches Err(Status::Internal(m)) && m@
            == "some error occurred during db session: "@ + e@),
{
    match outcome {
        PublishOutcome::Committed => Ok(()),
        PublishOutcome::UniqueViolation => Err(Status::AlreadyExists(String::from_str(
            "release is already exists, try to publish with a different version.",
        ))),
        PublishOutcome::OtherDatabaseError(k) => Err(Status::Internal(join2("some error occurred during db session: ", k.as_str()))),
        PublishOutcome::OtherError(e) => Err(Status::Internal(join2("some error occurred during db session: ", e.as_str()))),
    }
}

/// Publish, for each dependency: given the lookup of the dependency's release (the ids
/// of its versions, oldest first), the id of the version depended on, the last one
/// listed; `None`, on a failed lookup, rolls the transaction back. A release that is
/// not found, or has no version, is outside what the handler can take.
pub fn publish_dependency_version(release: Result<Option<Vec<i32>>, String>) -> (r: Option<i32>)
    requires
        release is Err || (release matches Ok(Some(ids)) && ids@.len() > 0),
    ensures
        release is Err ==> r is None,
        release matches Ok(Some(ids)) ==> r == Some(ids@.last()),
{
    match release {
        Ok(Some(ids)) => Some(ids[ids.len() - 1]),
        _ => None,
    }
}

/// A library found in the database: id, name and description.
pub struct StoredLibrary {
    pub lib_id: i32,
    pub name: String,
    pub description: Option<String>,
}

/// Metadata, first step: given the lookup of `library`, the library to describe.
pub fn metadata_library(library: &str, lookup: Result<Option<StoredLibrary>, String>) -> (r: Result<StoredLibrary, Status>)
    ensures
        lookup matches Err(e) ==> (r matches Err(Status::Internal(m)) && m@
            == "Failed to fetch metadata for library \""@ + library@ + "\": "@ + e@),
        lookup matches Ok(None) ==> (r matches Err(Status::NotFound(m)) && m@ == "Library: "@ + library@
            + " doesn't exist, bug the author - or grab the package name."@),
        lookup matches Ok(Some(l)) ==> r == Ok::<StoredLibrary, Status>(l),
{
    match lookup {
        Err(e) => Err(Status::Internal(join4("Failed to fetch metadata for library \"", library, "\": ", e.as_str()))),
        Ok(None) => Err(Status::NotFound(join3(
            "Library: ",
            library,
            " doesn't exist, bug the author - or grab the package name.",
        ))),
        Ok(Some(l)) => Ok(l),
    }
}

/// The description shown for a library: its own, or the empty text.
pub fn metadata_description(description: Option<String>) -> (r: String)
    ensures
        description matches Some(d) ==> r == d,
        description is None ==> r@.len() == 0,
{
    match description {
        Some(d) => d,
        None => String::new(),
    }
}

/// The dependencies of one version as the successful lookups give them: for each
/// lookup of a dependency's library and version, in order, the name mapped to the
/// version; a failed or empty lookup is passed over.
pub open spec fn dependencies_found(lookups: Seq<Result<Option<(String, String)>, String>>) -> Seq<(Seq<char>, Seq<char>)>
    decreases lookups.len(),
{
    if lookups.len() == 0 {
        Seq::empty()
    } else {
        let before = dependencies_found(lookups.drop_last());
        match lookups.last() {
            Ok(Some(found)) => upsert_spec(before, found.0@, found.1@),
            _ => before,
        }
    }
}

/// The dependencies found name each library once.
pub proof fn lemma_dependencies_found_unique(lookups: Seq<Result<Option<(String, String)>, String>>)
    ensures
        unique_keys(dependencies_found(lookups)),
    decreases lookups.len(),
{
    if lookups.len() > 0 {
        lemma_dependencies_found_unique(lookups.drop_last());
        match lookups.last() {
            Ok(Some(found)) => {
                lemma_upsert_keeps_keys_unique(dependencies_found(lookups.drop_last()), found.0@, found.1@);
            },
            _ => {},
        }
    }
}

/// Metadata, for each version: the map from dependency name to version built from
/// the lookups of the version's dependencies.
pub fn metadata_dependencies(lookups: Vec<Result<Option<(String, String)>, String>>) -> (r: Vec<(String, String)>)
    ensures
        pairs_of(r@) == dependencies_found(lookups@),
{
    let mut deps: Vec<(String, String)> = Vec::new();
    let mut rest = lookups;
    let ghost all = rest@;
    let n = rest.len();
    let mut i: usize = 0;
    assert(pairs_of(deps@) =~= dependencies_found(all.take(0)));
    assert(rest@ =~= all.skip(0));
    while i < n
        invariant
            n == all.len(),
            0 <= i <= n,
            rest@ == all.skip(i as int),
            pairs_of(deps@) == dependencies_found(all.take(i as int)),
        decreases n - i,
    {
        let item = rest.remove(0);
        assert(item == all[i as int]);
        assert(rest@ =~= all.skip(i + 1));
        assert(all.take(i + 1).drop_last() =~= all.take(i as int));
        assert(all.take(i + 1).last() == all[i as int]);
        match item {
            Ok(Some(found)) => {
                upsert_pair(&mut deps, found.0, found.1);
            },
            _ => {},
        }
        i = i + 1;
    }
    assert(all.take(n as int) =~= all);
    deps
}

/// A version of a library found in the database: its id and its number.
pub struct StoredVersion {
    pub id: i32,
    pub version_number: String,
}

/// Metadata, second step: given the lookup of the library's versions, the versions to
/// describe.
pub fn metadata_versions(library: &str, lookup: Result<Vec<StoredVersion>, String>) -> (r: Result<Vec<StoredVersion>, Status>)
    ensures
        lookup matches Err(e) ==> (r matches Err(Status::Internal(m)) && m@
            == "Failed to fetch metadata for library \""@ + library@ + "\": "@ + e@),
        lookup matches Ok(v) ==> r == Ok::<Vec<StoredVersion>, Status>(v),
{
    match lookup {
        Err(e) => Err(Status::Internal(join4("Failed to fetch metadata for library \"", library, "\": ", e.as_str()))),
        Ok(v) => Ok(v),
    }
}

/// The decimal form of a signed 32-bit number.
fn signed_text(n: i32) -> (r: String)
    ensures
        r@ == signed_decimal(n as int),
{
    if n < 0 {
        let magnitude: u64 = (0i64 - (n as i64)) as u64;
        join2("-", to_decimal(magnitude).as_str())
    } else {
        to_decimal(n as u64)
    }
}

/// Metadata, for each version: given the lookup of the version's dependencies (the ids
/// of the versions depended on), those ids.
pub fn metadata_version_dependencies(library: &str, version_id: i32, lookup: Result<Vec<i32>, String>) -> (r: Result<Vec<i32>, Status>)
    ensures
        lookup matches Err(e) ==> (r matches Err(Status::Internal(m)) && m@ == "Failed to fetch library \""@
            + library@ + "\" metadata - errored on version "@ + signed_decimal(version_id as int)
            + " dependencies. "@ + e@),
        lookup matches Ok(v) ==> r == Ok::<Vec<i32>, Status>(v),
{
    match lookup {
        Err(e) => {
            let id = signed_text(version_id);
            let mut m = join3("Failed to fetch library \"", library, "\" metadata - errored on version ");
            m.append(id.as_str());
            m.append(" dependencies. ");
            m.append(e.as_str());
            Err(Status::Internal(m))
        },
        Ok(v) => Ok(v),
    }
}

/// One version of a library, as the metadata describes it.
pub struct VersionInfo {
    pub name: String,
    pub version: String,
    pub dependencies: Vec<(String, String)>,
}

/// The metadata of a library: its name, description and versions by number.
pub struct MetadataResponse {
    pub name: String,
    pub description: String,
    pub versions: Vec<(String, VersionInfo)>,
}

/// Where `key` is among `keys`, the last place, or -1.
pub open spec fn key_position(keys: Seq<Seq<char>>, key: Seq<char>) -> int
    decreases keys.len(),
{
    if keys.len() == 0 {
        -1
    } else if keys.last() == key {
        keys.len() - 1
    } else {
        key_position(keys.drop_last(), key)
    }
}

proof fn lemma_key_position(keys: Seq<Seq<char>>, key: Seq<char>)
    ensures
        -1 <= key_position(keys, key) < keys.len(),
        key_position(keys, key) >= 0 ==> keys[key_position(keys, key)] == key,
        forall|j: int| key_position(keys, key) < j < keys.len() ==> #[trigger] keys[j] != key,
    decreases keys.len(),
{
    if keys.len() > 0 {
        lemma_key_position(keys.drop_last(), key);
        if keys.last() != key {
            assert forall|j: int| key_position(keys, key) < j < keys.len() implies #[trigger] keys[j] != key by {
                if j < keys.len() - 1 {
                    assert(keys[j] == keys.drop_last()[j]);
                }
            }
        }
    }
}

pub open spec fn version_keys(v: Seq<(String, VersionInfo)>) -> Seq<Seq<char>> {
    v.map_values(|e: (String, VersionInfo)| e.0@)
}

/// The versions with `number` mapped to `info`: its entry replaced where there is one,
/// else a new entry at the end.
pub open spec fn with_version(v: Seq<(String, VersionInfo)>, number: String, info: VersionInfo) -> Seq<(String, VersionInfo)> {
    let k = key_position(version_keys(v), number@);
    if k < 0 {
        v.push((number, info))
    } else {
        v.update(k, (number, info))
    }
}

/// The versions described for library `name`, one per version number: for each
/// version found, in order, its number mapped to the library's name, the number and
/// its dependencies.
pub open spec fn versions_described(name: String, found: Seq<(String, Vec<(String, String)>)>) -> Seq<(String, VersionInfo)>
    decreases found.len(),
{
    if found.len() == 0 {
        Seq::empty()
    } else {
        let f = found.last();
        with_version(
            versions_described(name, found.drop_last()),
            f.0,
            VersionInfo { name: name, version: f.0, dependencies: f.1 },
        )
    }
}

/// The metadata describes each version number once.
pub proof fn lemma_versions_described_unique(name: String, found: Seq<(String, Vec<(String, String)>)>)
    ensures
        ({
            let keys = version_keys(versions_described(name, found));
            forall|i: int, j: int| 0 <= i < j < keys.len() ==> #[trigger] keys[i] != #[trigger] keys[j]
        }),
    decreases found.len(),
{
    if found.len() > 0 {
        lemma_versions_described_unique(name, found.drop_last());
        let before = versions_described(name, found.drop_last());
        let f = found.last();
        let info = VersionInfo { name: name, version: f.0, dependencies: f.1 };
        let r = with_version(before, f.0, info);
        let kb = version_keys(before);
        let kr = version_keys(r);
        lemma_key_position(kb, f.0@);
        let k = key_position(kb, f.0@);
        assert forall|i: int, j: int| 0 <= i < j < kr.len() implies #[trigger] kr[i] != #[trigger] kr[j] by {
            if k < 0 {
                if j == before.len() {
                    assert(kr[j] == f.0@);
                    assert(kr[i] == kb[i]);
                } else {
                    assert(kr[i] == kb[i] && kr[j] == kb[j]);
                }
            } else {
                assert(kr[i] == kb[i] && kr[j] == kb[j]);
            }
        }
    }
}

fn put_version(versions: &mut Vec<(String, VersionInfo)>, number: String, info: VersionInfo)
    ensures
        final(versions)@ == with_version(old(versions)@, number, info),
{
    let ghost keys = version_keys(versions@);
    let mut i: usize = versions.len();
    assert(keys.take(i as int) =~= keys);
    while i > 0
        invariant
            0 <= i <= versions.len(),
            keys == version_keys(versions@),
            versions@ == old(versions)@,
            key_position(keys, number@) == key_position(keys.take(i as int), number@),
        decreases i,
    {
        assert(keys.take(i as int).drop_last() =~= keys.take(i - 1));
        if crate::text::str_equal(versions[i - 1].0.as_str(), number.as_str()) {
            versions.set(i - 1, (number, info));
            return;
        }
        i = i - 1;
    }
    versions.push((number, info));
}

/// Metadata, last step: the answer for the library and, for each of its versions in
/// the order found, the version number and its dependencies by name.
pub fn metadata_response(library: StoredLibrary, found: Vec<(String, Vec<(String, String)>)>) -> (r: MetadataResponse)
    ensures
        r.name == library.name,
        library.description matches Some(d) ==> r.description == d,
        library.description is None ==> r.description@.len() == 0,
        r.versions@ == versions_described(library.name, found@),
{
    let ghost all = found@;
    let mut rest = found;
    let n = rest.len();
    let mut versions: Vec<(String, VersionInfo)> = Vec::new();
    let mut i: usize = 0;
    assert(rest@ =~= all.skip(0));
    assert(versions@ =~= versions_described(library.name, all.take(0)));
    while i < n
        invariant
            n == all.len(),
            0 <= i <= n,
            rest@ == all.skip(i as int),
            versions@ == versions_described(library.name, all.take(i as int)),
        decreases n - i,
    {
        let (number, deps) = rest.remove(0);
        assert((number, deps) == all[i as int]);
        assert(rest@ =~= all.skip(i + 1));
        assert(all.take(i + 1).drop_last() =~= all.take(i as int));
        assert(all.take(i + 1).last() == all[i as int]);
        let info = VersionInfo { name: library.name.clone(), version: number.clone(), dependencies: deps };
        put_version(&mut versions, number, info);
        i = i + 1;
    }
    assert(all.take(n as int) =~= all);
    MetadataResponse {
        name: library.name,
        description: metadata_description(library.description),
        versions,
    }
}

} // verus!
