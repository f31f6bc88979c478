//! The local store of installed libraries under `proto_modules/`.
use crate::fs::{join_spec, path_starts_with, path_strip_prefix, starts_with_path, strip_prefix, FileSystem};
use crate::order::{lex_leq, sort_strings};
use crate::text::str_equal;
use vstd::prelude::*;

verus! {

/// The directory that installed libraries are unpacked into.
pub const PROTO_MODULES_PATH: &'static str = "proto_modules";

/// The manifest file of a library.
pub const MANIFEST_FILE: &'static str = "proto-package.json";

/// A required library: its name and its version (empty for the latest).
pub struct Dependency {
    pub library_id: String,
    pub version: String,
}

/// A `.proto` file and its content.
pub struct File {
    pub name: String,
    pub content: Vec<u8>,
}

/// A protobuf package of a library and its files.
pub struct Package {
    pub name: String,
    pub files: Vec<File>,
    pub metadata: Vec<(String, String)>,
}

/// A released library.
pub struct Library {
    pub name: String,
    pub version: String,
    pub fd_set: Vec<u8>,
    pub metadata: Vec<(String, String)>,
    pub packages: Vec<Package>,
}

/// IO abstraction layer over the local library store.
pub struct LibraryStore;

/// The path of `p` relative to `base`, or `p` itself when `base` is not a prefix.
pub open spec fn rel_or_self(p: Seq<char>, base: Seq<char>) -> Seq<char> {
    match path_strip_prefix(p, base) {
        Some(r) => r,
        None => p,
    }
}

/// Some entry of `exclude` is a leading part of `rel`.
pub open spec fn is_excluded(rel: Seq<char>, exclude: Seq<Seq<char>>) -> bool {
    exists|i: int| 0 <= i < exclude.len() && path_starts_with(rel, #[trigger] exclude[i])
}

/// The files that are not excluded, made relative to `base`, in order; fails when
/// one of them does not lie under `base`.
pub open spec fn collect_relative(files: Seq<Seq<char>>, base: Seq<char>, exclude: Seq<Seq<char>>) -> Result<Seq<Seq<char>>, Seq<char>>
    decreases files.len(),
{
    if files.len() == 0 {
        Ok(Seq::empty())
    } else {
        match collect_relative(files.drop_last(), base, exclude) {
            Err(e) => Err(e),
            Ok(done) => {
                let f = files.last();
                if is_excluded(rel_or_self(f, base), exclude) {
                    Ok(done)
                } else {
                    match path_strip_prefix(f, base) {
                        None => Err("failed to process relative paths"@),
                        Some(r) => Ok(done.push(r)),
                    }
                }
            },
        }
    }
}

/// What is collected for publishing: nothing that lies under any excluded directory,
/// and, for every file under `base` that lies under none of them, its path relative
/// to `base`; every path collected is that of one of the files.
pub proof fn lemma_collect_excludes(files: Seq<Seq<char>>, base: Seq<char>, exclude: Seq<Seq<char>>)
    ensures
        collect_relative(files, base, exclude) matches Ok(ps) ==> forall|k: int, i: int|
            0 <= k < ps.len() && 0 <= i < exclude.len() ==> !path_starts_with(#[trigger] ps[k], #[trigger] exclude[i]),
        collect_relative(files, base, exclude) matches Ok(ps) ==> forall|j: int|
            0 <= j < files.len() && path_strip_prefix(#[trigger] files[j], base) is Some && (forall|i: int|
                0 <= i < exclude.len() ==> !path_starts_with(path_strip_prefix(files[j], base)->Some_0, #[trigger] exclude[i]))
                ==> ps.contains(path_strip_prefix(files[j], base)->Some_0),
        collect_relative(files, base, exclude) matches Ok(ps) ==> forall|k: int|
            0 <= k < ps.len() ==> exists|j: int| 0 <= j < files.len() && path_strip_prefix(#[trigger] files[j], base) == Some(#[trigger] ps[k]),
    decreases files.len(),
{
    if files.len() > 0 {
        let p = files.drop_last();
        lemma_collect_excludes(p, base, exclude);
        assert forall|j: int| 0 <= j < p.len() implies #[trigger] p[j] == files[j] by {}
        match collect_relative(p, base, exclude) {
            Err(_) => {},
            Ok(done) => {
                let f = files.last();
                assert(files[files.len() - 1] == f);
                if is_excluded(rel_or_self(f, base), exclude) {
                    let i0 = choose|i: int| 0 <= i < exclude.len() && path_starts_with(rel_or_self(f, base), #[trigger] exclude[i]);
                    assert forall|j: int|
                        0 <= j < files.len() && path_strip_prefix(#[trigger] files[j], base) is Some && (forall|i: int|
                            0 <= i < exclude.len() ==> !path_starts_with(path_strip_prefix(files[j], base)->Some_0, #[trigger] exclude[i]))
                            implies done.contains(path_strip_prefix(files[j], base)->Some_0) by {
                        if j == files.len() - 1 {
                            assert(!path_starts_with(path_strip_prefix(files[j], base)->Some_0, exclude[i0]));
                        } else {
                            assert(p[j] == files[j]);
                        }
                    }
                    assert forall|k: int| 0 <= k < done.len() implies exists|j: int| 0 <= j < files.len()
                        && path_strip_prefix(#[trigger] files[j], base) == Some(#[trigger] done[k]) by {
                        let j = choose|j: int| 0 <= j < p.len() && path_strip_prefix(#[trigger] p[j], base) == Some(done[k]);
                        assert(files[j] == p[j]);
                    }
                } else {
                    match path_strip_prefix(f, base) {
                        None => {},
                        Some(r) => {
                            let ps = done.push(r);
                            assert forall|k: int, i: int|
                                0 <= k < ps.len() && 0 <= i < exclude.len() implies !path_starts_with(#[trigger] ps[k], #[trigger] exclude[i]) by {
                                if k < done.len() {
                                    assert(ps[k] == done[k]);
                                } else {
                                    assert(ps[k] == r);
                                    assert(rel_or_self(f, base) == r);
                                }
                            }
                            assert forall|j: int|
                                0 <= j < files.len() && path_strip_prefix(#[trigger] files[j], base) is Some && (forall|i: int|
                                    0 <= i < exclude.len() ==> !path_starts_with(path_strip_prefix(files[j], base)->Some_0, #[trigger] exclude[i]))
                                    implies ps.contains(path_strip_prefix(files[j], base)->Some_0) by {
                                if j == files.len() - 1 {
                                    assert(ps[ps.len() - 1] == r);
                                } else {
                                    assert(p[j] == files[j]);
                                    let k = choose|k: int| 0 <= k < done.len() && done[k] == path_strip_prefix(p[j], base)->Some_0;
                                    assert(ps[k] == done[k]);
                                }
                            }
                            assert forall|k: int| 0 <= k < ps.len() implies exists|j: int| 0 <= j < files.len()
                                && path_strip_prefix(#[trigger] files[j], base) == Some(#[trigger] ps[k]) by {
                                if k < done.len() {
                                    let j = choose|j: int| 0 <= j < p.len() && path_strip_prefix(#[trigger] p[j], base) == Some(done[k]);
                                    assert(files[j] == p[j]);
                                    assert(ps[k] == done[k]);
                                } else {
                                    assert(path_strip_prefix(files[files.len() - 1], base) == Some(ps[k]));
                                }
                            }
                        },
                    }
                }
            },
        }
    }
}

pub open spec fn strings_view(v: Seq<String>) -> Seq<Seq<char>> {
    v.map_values(|s: String| s@)
}

proof fn lemma_collect_err_stays(files: Seq<Seq<char>>, base: Seq<char>, exclude: Seq<Seq<char>>, k: int)
    requires
        0 <= k <= files.len(),
        collect_relative(files.take(k), base, exclude) is Err,
    ensures
        collect_relative(files, base, exclude) == collect_relative(files.take(k), base, exclude),
    decreases files.len(),
{
    if files.len() == k {
        assert(files.take(k) =~= files);
    } else {
        assert(files.drop_last().take(k) =~= files.take(k));
        lemma_collect_err_stays(files.drop_last(), base, exclude, k);
    }
}

fn excluded(rel: &str, exclude: &Vec<String>) -> (r: bool)
    ensures
        r == is_excluded(rel@, strings_view(exclude@)),
{
    let ghost ex = strings_view(exclude@);
    let mut i: usize = 0;
    while i < exclude.len()
        invariant
            0 <= i <= exclude.len(),
            ex == strings_view(exclude@),
            forall|k: int| 0 <= k < i ==> !path_starts_with(rel@, #[trigger] ex[k]),
        decreases exclude.len() - i,
    {
        if starts_with_path(rel, exclude[i].as_str()) {
            assert(path_starts_with(rel@, ex[i as int]));
            return true;
        }
        i = i + 1;
    }
    false
}

impl LibraryStore {
    /// Of the `.proto` files found under a library, the paths relative to `lib_path`,
    /// leaving out those under an excluded directory, sorted to be deterministic.
    pub fn collect(files: &Vec<String>, lib_path: &str, exclude: &Vec<String>) -> (r: Result<Vec<String>, String>)
        ensures
            match collect_relative(strings_view(files@), lib_path@, strings_view(exclude@)) {
                Err(e) => r matches Err(m) && m@ == e,
                Ok(ps) => r matches Ok(v) && strings_view(v@) == ps.sort_by(lex_leq()),
            },
    {
        let ghost fs = strings_view(files@);
        let ghost ex = strings_view(exclude@);
        let mut paths: Vec<String> = Vec::new();
        let mut i: usize = 0;
        assert(fs.take(0) =~= Seq::<Seq<char>>::empty());
        assert(strings_view(paths@) =~= Seq::<Seq<char>>::empty());
        while i < files.len()
            invariant
                0 <= i <= files.len(),
                fs == strings_view(files@),
                ex == strings_view(exclude@),
                collect_relative(fs.take(i as int), lib_path@, ex) == Ok::<Seq<Seq<char>>, Seq<char>>(
                    strings_view(paths@),
                ),
            decreases files.len() - i,
        {
            assert(fs.take(i + 1).drop_last() =~= fs.take(i as int));
            assert(fs.take(i + 1).last() == files@[i as int]@);
            let path = &files[i];
            let stripped = strip_prefix(path.as_str(), lib_path);
            let skip = match &stripped {
                Some(rel) => excluded(rel.as_str(), exclude),
                None => excluded(path.as_str(), exclude),
            };
            if !skip {
                match stripped {
                    None => {
                        proof {
                            lemma_collect_err_stays(fs, lib_path@, ex, i + 1);
                        }
                        return Err(String::from_str("failed to process relative paths"));
                    },
                    Some(rel) => {
                        let ghost before = paths@;
                        paths.push(rel);
                        assert(strings_view(paths@) =~= strings_view(before).push(rel@));
                    },
                }
            }
            i = i + 1;
        }
        assert(fs.take(i as int) =~= fs);
        Ok(sort_strings(paths))
    }

    /// The directory an installed library version lives in:
    /// `proto_modules/<library>/<version>`.
    pub fn locate(library: &Dependency) -> (r: String)
        ensures
            r@ == join_spec(join_spec(PROTO_MODULES_PATH@, library.library_id@), library.version@),
    {
        let dir = FileSystem::join_paths(PROTO_MODULES_PATH, library.library_id.as_str());
        FileSystem::join_paths(dir.as_str(), library.version.as_str())
    }

    /// The path of the manifest of an installed library version.
    pub fn manifest_path(library: &Dependency) -> (r: String)
        ensures
            r@ == join_spec(
                join_spec(join_spec(PROTO_MODULES_PATH@, library.library_id@), library.version@),
                MANIFEST_FILE@,
            ),
    {
        let dir = Self::locate(library);
        FileSystem::join_paths(dir.as_str(), MANIFEST_FILE)
    }
}

/// What a compiled file descriptor tells of one `.proto` file: its package, and its
/// name relative to the source directory.
pub struct FileDescriptor {
    pub package: Option<String>,
    pub name: Option<String>,
}

/// The name a file descriptor gives, or the empty name.
pub open spec fn name_or_empty(name: Option<String>) -> Seq<char> {
    match name {
        Some(n) => n@,
        None => Seq::empty(),
    }
}

/// Where the group of `package` is among `groups`, or -1 (the first such group).
pub open spec fn group_index(groups: Seq<(Seq<char>, Seq<Seq<char>>)>, package: Seq<char>) -> int
    decreases groups.len(),
{
    if groups.len() == 0 {
        -1
    } else {
        let k = group_index(groups.drop_last(), package);
        if k >= 0 {
            k
        } else if groups.last().0 == package {
            groups.len() - 1
        } else {
            -1
        }
    }
}

/// `groups` with `file` added at the end of the group of `package`, a new group
/// at the end where there is none yet.
pub open spec fn add_to_group(
    groups: Seq<(Seq<char>, Seq<Seq<char>>)>,
    package: Seq<char>,
    file: Seq<char>,
) -> Seq<(Seq<char>, Seq<Seq<char>>)> {
    let k = group_index(groups, package);
    if k < 0 {
        groups.push((package, seq![file]))
    } else {
        groups.update(k, (package, groups[k].1.push(file)))
    }
}

/// The files of each package, packages in the order they first occur and files in
/// the order they occur; a file without a package is left out.
pub open spec fn package_files(fds: Seq<FileDescriptor>) -> Seq<(Seq<char>, Seq<Seq<char>>)>
    decreases fds.len(),
{
    if fds.len() == 0 {
        Seq::empty()
    } else {
        let before = package_files(fds.drop_last());
        match fds.last().package {
            Some(p) => add_to_group(before, p@, name_or_empty(fds.last().name)),
            None => before,
        }
    }
}

pub open spec fn groups_view(groups: Seq<(String, Vec<String>)>) -> Seq<(Seq<char>, Seq<Seq<char>>)> {
    groups.map_values(|g: (String, Vec<String>)| (g.0@, strings_view(g.1@)))
}

proof fn lemma_group_index(groups: Seq<(Seq<char>, Seq<Seq<char>>)>, package: Seq<char>)
    ensures
        -1 <= group_index(groups, package) < groups.len(),
        group_index(groups, package) >= 0 ==> groups[group_index(groups, package)].0 == package,
        forall|j: int| 0 <= j < groups.len() && (group_index(groups, package) < 0 || j < group_index(groups, package))
            ==> #[trigger] groups[j].0 != package,
    decreases groups.len(),
{
    if groups.len() > 0 {
        lemma_group_index(groups.drop_last(), package);
        assert forall|j: int| 0 <= j < groups.len() - 1 implies #[trigger] groups[j] == groups.drop_last()[j] by {}
    }
}

/// No package has two groups.
pub open spec fn unique_groups(groups: Seq<(Seq<char>, Seq<Seq<char>>)>) -> bool {
    forall|i: int, j: int| 0 <= i < j < groups.len() ==> #[trigger] groups[i].0 != #[trigger] groups[j].0
}

/// Grouping files by package gives each package one group.
pub proof fn lemma_package_files_unique(fds: Seq<FileDescriptor>)
    ensures
        unique_groups(package_files(fds)),
    decreases fds.len(),
{
    if fds.len() > 0 {
        lemma_package_files_unique(fds.drop_last());
        let before = package_files(fds.drop_last());
        match fds.last().package {
            Some(p) => {
                lemma_group_index(before, p@);
                let r = add_to_group(before, p@, name_or_empty(fds.last().name));
                let k = group_index(before, p@);
                assert forall|i: int, j: int| 0 <= i < j < r.len() implies #[trigger] r[i].0 != #[trigger] r[j].0 by {
                    if k < 0 {
                        if j == before.len() {
                            assert(before[i].0 != p@);
                        } else {
                            assert(r[i] == before[i] && r[j] == before[j]);
                        }
                    } else {
                        assert(r[i].0 == before[i].0 && r[j].0 == before[j].0);
                    }
                }
            },
            None => {},
        }
    }
}

/// Adds `file` to the group of `package`.
fn add_file(groups: &mut Vec<(String, Vec<String>)>, package: String, file: String)
    ensures
        groups_view(final(groups)@) == add_to_group(groups_view(old(groups)@), package@, file@),
{
    let ghost gv = groups_view(groups@);
    proof {
        lemma_group_index(gv, package@);
    }
    let mut i: usize = 0;
    while i < groups.len()
        invariant
            0 <= i <= groups.len(),
            gv == groups_view(groups@),
            gv == groups_view(old(groups)@),
            forall|j: int| 0 <= j < i ==> #[trigger] gv[j].0 != package@,
        decreases groups.len() - i,
    {
        if str_equal(groups[i].0.as_str(), package.as_str()) {
            assert(gv[i as int].0 == package@);
            proof {
                lemma_group_index(gv, package@);
            }
            assert(group_index(gv, package@) == i as int);
            let (name, mut files) = groups.remove(i);
            let ghost before = files@;
            files.push(file);
            assert(strings_view(files@) =~= strings_view(before).push(file@));
            groups.insert(i, (name, files));
            assert(groups_view(groups@) =~= gv.update(i as int, (package@, gv[i as int].1.push(file@))));
            return;
        }
        i = i + 1;
    }
    assert(group_index(gv, package@) < 0);
    let mut files: Vec<String> = Vec::new();
    files.push(file);
    assert(strings_view(files@) =~= seq![file@]);
    let ghost before = groups@;
    groups.push((package, files));
    assert(groups@ =~= before.push((package, files)));
    assert(groups_view(groups@) =~= gv.push((package@, seq![file@])));
}

/// Groups the files of a compiled library by their protobuf package: for each
/// package, in the order packages first occur, the names of its files in the order
/// they occur. A file that declares no package is left out; one that has no name is
/// listed under the empty name.
pub fn parse_package_files_map(fds: Vec<FileDescriptor>) -> (r: Vec<(String, Vec<String>)>)
    ensures
        groups_view(r@) == package_files(fds@),
{
    let ghost all = fds@;
    let mut rest = fds;
    let n = rest.len();
    let mut groups: Vec<(String, Vec<String>)> = Vec::new();
    let mut i: usize = 0;
    assert(groups_view(groups@) =~= package_files(all.take(0)));
    assert(rest@ =~= all.skip(0));
    while i < n
        invariant
            n == all.len(),
            0 <= i <= n,
            rest@ == all.skip(i as int),
            groups_view(groups@) == package_files(all.take(i as int)),
        decreases n - i,
    {
        let fd = rest.remove(0);
        assert(fd == all[i as int]);
        assert(rest@ =~= all.skip(i + 1));
        assert(all.take(i + 1).drop_last() =~= all.take(i as int));
        assert(all.take(i + 1).last() == all[i as int]);
        match fd.package {
            Some(p) => {
                let name = match fd.name {
                    Some(nm) => nm,
                    None => String::new(),
                };
                add_file(&mut groups, p, name);
            },
            None => {},
        }
        i = i + 1;
    }
    assert(all.take(n as int) =~= all);
    groups
}

/// The directory that `protoc` is pointed at when a release is built: the library's
/// source directory relative to the project (`.` for the project itself). Any other
/// directory than `.` must exist (`src_dir_exists`).
pub fn release_include_dir(relative_src: &str, src_dir_exists: bool) -> (r: Result<String, String>)
    ensures
        ({
            let dir = if relative_src@.len() == 0 { "."@ } else { relative_src@ };
            &&& (dir == "."@ || src_dir_exists) ==> (r matches Ok(d) && d@ == dir)
            &&& !(dir == "."@ || src_dir_exists) ==> (r matches Err(m) && m@
                == "must have a valid 'src_dir' value pointing to a root .proto files directory"@)
        }),
{
    proof {
        reveal_strlit(".");
    }
    let dir = if relative_src.unicode_len() == 0 {
        String::from_str(".")
    } else {
        String::from_str(relative_src)
    };
    if !str_equal(dir.as_str(), ".") && !src_dir_exists {
        Err(String::from_str("must have a valid 'src_dir' value pointing to a root .proto files directory"))
    } else {
        Ok(dir)
    }
}

/// A package of a release: its files as read from disk, or, where reading them failed,
/// the empty package.
pub fn release_package(name: String, files: Result<Vec<File>, String>) -> (r: Package)
    ensures
        files matches Ok(f) ==> r.name == name && r.files == f,
        files is Err ==> r.name@.len() == 0 && r.files@.len() == 0,
        r.metadata@.len() == 0,
{
    match files {
        Ok(f) => Package { name, files: f, metadata: Vec::new() },
        Err(_) => Package { name: String::new(), files: Vec::new(), metadata: Vec::new() },
    }
}

/// The library released from a manifest's name and version, the compiled descriptor
/// set, its checksum and its packages. Its metadata holds the checksum alone.
pub fn release_library(name: String, version: String, fd_set: Vec<u8>, checksum: String, packages: Vec<Package>) -> (r: Library)
    ensures
        r.name == name,
        r.version == version,
        r.fd_set == fd_set,
        r.packages == packages,
        r.metadata@.len() == 1,
        r.metadata@[0].0@ == "checksum"@,
        r.metadata@[0].1 == checksum,
{
    let mut metadata: Vec<(String, String)> = Vec::new();
    metadata.push((String::from_str("checksum"), checksum));
    Library { name, version, fd_set, metadata, packages }
}

} // verus!
