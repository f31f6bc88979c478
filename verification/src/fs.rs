//! Paths, as the file system helpers compute them.
use crate::configs::opt_view;
use vstd::prelude::*;

verus! {

/// A file, or a directory with what it holds, found while walking a directory tree.
pub enum Entry {
    File(String),
    Directory(String, Vec<Entry>),
}

/// Helpers for paths and files.
pub struct FileSystem;

/// `p` joined with `q` as `Path::join` does on Unix: an absolute `q` replaces
/// `p`; otherwise `q` follows `p`, with a `/` between them unless `p` is empty
/// or already ends with one.
pub open spec fn join_spec(p: Seq<char>, q: Seq<char>) -> Seq<char> {
    if q.len() > 0 && q[0] == '/' {
        q
    } else if p.len() == 0 || p.last() == '/' {
        p + q
    } else {
        p + seq!['/'] + q
    }
}

/// What is left of `path` after the leading components `base`, as
/// `std::path::Path::strip_prefix` computes it; `None` when `base` is not a prefix.
pub uninterp spec fn path_strip_prefix(path: Seq<char>, base: Seq<char>) -> Option<Seq<char>>;

/// `std::path::Path::starts_with`: `base` is a prefix of `path`, component by component.
pub uninterp spec fn path_starts_with(path: Seq<char>, base: Seq<char>) -> bool;

/// Calls `std::path::Path::strip_prefix`. The contract claims the named result and,
/// as the documentation says, that it fails exactly when `starts_with` is false.
#[verifier::external_body]
pub(crate) fn strip_prefix(path: &str, base: &str) -> (r: Option<String>)
    ensures
        opt_view(r) == path_strip_prefix(path@, base@),
        r is Some <==> path_starts_with(path@, base@),
{
    std::path::Path::new(path).strip_prefix(base).ok().map(|p| p.to_string_lossy().into_owned())
}

/// Calls `std::path::Path::starts_with`; the result is named `path_starts_with`.
#[verifier::external_body]
pub(crate) fn starts_with_path(path: &str, base: &str) -> (r: bool)
    ensures
        r == path_starts_with(path@, base@),
{
    std::path::Path::new(path).starts_with(base)
}

/// `std::path::Path::extension`: what follows the last `.` of the file name, if the
/// name has one that is not its first character.
pub uninterp spec fn path_extension(path: Seq<char>) -> Option<Seq<char>>;

/// Calls `std::path::Path::extension`; the result is named `path_extension`.
#[verifier::external_body]
pub(crate) fn extension(path: &str) -> (r: Option<String>)
    ensures
        opt_view(r) == path_extension(path@),
{
    std::path::Path::new(path).extension().map(|e| e.to_string_lossy().into_owned())
}

/// The path is a `.proto` file.
pub open spec fn is_proto_path(path: Seq<char>) -> bool {
    path_extension(path) == Some("proto"@)
}

impl FileSystem {
    /// Of the files found while walking a directory, the `.proto` ones, in the order
    /// they were found.
    pub fn list_protos(files: &Vec<String>) -> (r: Vec<String>)
        ensures
            r@.map_values(|f: String| f@) == files@.map_values(|f: String| f@).filter(
                |f: Seq<char>| is_proto_path(f),
            ),
    {
        let ghost all = files@.map_values(|f: String| f@);
        let mut out: Vec<String> = Vec::new();
        let mut i: usize = 0;
        proof {
            reveal_strlit("proto");
        }
        assert(all.take(0).filter(|f: Seq<char>| is_proto_path(f)) =~= Seq::<Seq<char>>::empty());
        while i < files.len()
            invariant
                0 <= i <= files.len(),
                all == files@.map_values(|f: String| f@),
                out@.map_values(|f: String| f@) == all.take(i as int).filter(|f: Seq<char>| is_proto_path(f)),
            decreases files.len() - i,
        {
            assert(all.take(i + 1).drop_last() =~= all.take(i as int));
            assert(all.take(i + 1).last() == files@[i as int]@);
            reveal(Seq::filter);
            let keep = match extension(files[i].as_str()) {
                Some(e) => crate::text::str_equal(e.as_str(), "proto"),
                None => false,
            };
            if keep {
                let ghost before = out@;
                out.push(files[i].clone());
                assert(out@.map_values(|f: String| f@) =~= before.map_values(|f: String| f@).push(files@[i as int]@));
            }
            i = i + 1;
        }
        assert(all.take(i as int) =~= all);
        out
    }

    /// Joins two paths.
    pub fn join_paths(p: &str, q: &str) -> (r: String)
        ensures
            r@ == join_spec(p@, q@),
    {
        let n = p.unicode_len();
        if q.unicode_len() > 0 && q.get_char(0) == '/' {
            String::from_str(q)
        } else if n == 0 || p.get_char(n - 1) == '/' {
            let mut s = String::from_str(p);
            s.append(q);
            s
        } else {
            proof {
                reveal_strlit("/");
            }
            let mut s = String::from_str(p);
            s.append("/");
            s.append(q);
            s
        }
    }

    /// The path of `absolute_path` relative to `base`; fails with "Not a prefix" when
    /// `base` is not one of its leading components.
    pub fn to_relative_path(absolute_path: &str, base: &str) -> (r: Result<String, String>)
        ensures
            r is Ok <==> path_starts_with(absolute_path@, base@),
            r matches Ok(p) ==> path_strip_prefix(absolute_path@, base@) == Some(p@),
            r matches Err(e) ==> e@ == "Not a prefix"@,
    {
        match strip_prefix(absolute_path, base) {
            Some(p) => Ok(p),
            None => Err(String::from_str("Not a prefix")),
        }
    }
}

} // verus!
