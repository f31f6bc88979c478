//! What the command line client sends to the registry: its address and token,
//! the names of downloads and uploads, and sizes shown to the user.
use crate::store::{Dependency, File, Library, Package};
use crate::text::{decimal, to_decimal};
use vstd::prelude::*;

verus! {

/// The registry address used when none is set.
pub const DEFAULT_CLIENT_ADDR: &'static str = "http://localhost:8080";

/// Collects the address and token of a registry connection.
pub struct CliRegistryClientBuilder {
    pub addr: Option<String>,
    pub token: Option<String>,
}

impl CliRegistryClientBuilder {
    /// A builder for the default address, without a token.
    pub fn new() -> (b: Self)
        ensures
            b.addr matches Some(a) && a@ == DEFAULT_CLIENT_ADDR@,
            b.token is None,
    {
        CliRegistryClientBuilder { addr: Some(String::from_str(DEFAULT_CLIENT_ADDR)), token: None }
    }

    /// Sets the registry address.
    pub fn with_addr(&mut self, addr: String) -> (r: &mut Self)
        ensures
            r.addr == Some(addr),
            r.token == old(self).token,
            *final(self) == *final(r),
    {
        self.addr = Some(addr);
        self
    }

    /// Sets the token sent with each request.
    pub fn with_token(&mut self, token: String) -> (r: &mut Self)
        ensures
            r.token == Some(token),
            r.addr == old(self).addr,
            *final(self) == *final(r),
    {
        self.token = Some(token);
        self
    }

    /// The `authorization` value sent with each request: `Bearer <token>`, the token
    /// empty when none is set.
    pub fn authorization(&self) -> (r: String)
        ensures
            r@ == "Bearer "@ + match self.token {
                Some(t) => t@,
                None => Seq::<char>::empty(),
            },
    {
        let mut s = String::from_str("Bearer ");
        match &self.token {
            Some(t) => s.append(t.as_str()),
            None => {},
        }
        s
    }
}

/// `name:version`, as a library release is named in requests and messages.
pub fn library_tag(name: &str, version: &str) -> (r: String)
    ensures
        r@ == name@ + ":"@ + version@,
{
    let mut s = String::from_str(name);
    s.append(":");
    s.append(version);
    s
}

/// The name a download asks for: the library alone for the latest version,
/// `library:version` for a given one.
pub fn download_name(dep: &Dependency) -> (r: String)
    ensures
        r@ == if dep.version@.len() == 0 {
            dep.library_id@
        } else {
            dep.library_id@ + ":"@ + dep.version@
        },
{
    if dep.version.as_str().unicode_len() == 0 {
        dep.library_id.clone()
    } else {
        library_tag(dep.library_id.as_str(), dep.version.as_str())
    }
}

pub open spec fn unit_name(c: nat) -> Seq<char> {
    if c == 0 {
        "B"@
    } else if c == 1 {
        "KB"@
    } else if c == 2 {
        "MB"@
    } else if c == 3 {
        "GB"@
    } else {
        "TB"@
    }
}

/// `bytes` divided by 1024 while it is at least 1024 and a larger unit is left,
/// with the number of divisions.
pub open spec fn scale_bytes(bytes: nat, count: nat) -> (nat, nat)
    decreases bytes,
{
    if bytes >= 1024 && count < 4 {
        scale_bytes(bytes / 1024, count + 1)
    } else {
        (bytes, count)
    }
}

/// `1024` to the power `k`: the number of bytes in unit `k`.
pub open spec fn unit_bytes(k: nat) -> nat
    decreases k,
{
    if k == 0 {
        1
    } else {
        1024 * unit_bytes((k - 1) as nat)
    }
}

proof fn lemma_unit_bytes_positive(k: nat)
    ensures
        unit_bytes(k) >= 1,
    decreases k,
{
    if k > 0 {
        lemma_unit_bytes_positive((k - 1) as nat);
    }
}

proof fn lemma_scale_from(n: nat, b: nat, c: nat)
    requires
        c <= 4,
        b == n / unit_bytes(c),
        c == 0 || unit_bytes(c) <= n,
    ensures
        ({
            let (q, k) = scale_bytes(b, c);
            &&& c <= k <= 4
            &&& q == n / unit_bytes(k)
            &&& k == 0 || unit_bytes(k) <= n
            &&& k == 4 || n < unit_bytes(k + 1)
        }),
    decreases b,
{
    lemma_unit_bytes_positive(c);
    let d = unit_bytes(c);
    assert(unit_bytes(c + 1) == 1024 * d);
    if b >= 1024 && c < 4 {
        vstd::arithmetic::div_mod::lemma_div_denominator(n as int, d as int, 1024);
        assert(d * 1024 == 1024 * d) by (nonlinear_arith);
        assert(n >= 1024 * d) by (nonlinear_arith)
            requires
                b == n / d,
                b >= 1024,
                d >= 1,
        ;
        assert(b / 1024 < b);
        lemma_scale_from(n, b / 1024, c + 1);
    } else if c < 4 {
        assert(n < 1024 * d) by (nonlinear_arith)
            requires
                b == n / d,
                b < 1024,
                d >= 1,
        ;
    }
}

/// The size shown is the number of bytes divided, rounding down, by the largest unit
/// (of B, KB, MB, GB and TB, each 1024 times the one before) that is not larger than
/// it, or by a byte when it is under a kilobyte, and by a terabyte from a terabyte on.
pub proof fn lemma_human_readable_unit(n: nat)
    ensures
        ({
            let (q, k) = scale_bytes(n, 0);
            &&& k <= 4
            &&& q == n / unit_bytes(k)
            &&& k == 0 || unit_bytes(k) <= n
            &&& k == 4 || n < unit_bytes(k + 1)
        }),
{
    assert(unit_bytes(0) == 1);
    assert(n / 1 == n);
    lemma_scale_from(n, n, 0);
}

fn unit_str(c: usize) -> (r: &'static str)
    requires
        c <= 4,
    ensures
        r@ == unit_name(c as nat),
{
    if c == 0 {
        "B"
    } else if c == 1 {
        "KB"
    } else if c == 2 {
        "MB"
    } else if c == 3 {
        "GB"
    } else {
        "TB"
    }
}

/// A size in bytes as people read it: `512 B`, `1 KB`, `3 MB`, up to terabytes,
/// rounded down.
pub fn bytes_to_human_readable(bytes: usize) -> (r: String)
    ensures
        r@ == decimal(scale_bytes(bytes as nat, 0).0) + " "@ + unit_name(scale_bytes(bytes as nat, 0).1),
{
    let mut b = bytes;
    let mut count: usize = 0;
    while b >= 1024 && count < 4
        invariant
            count <= 4,
            scale_bytes(bytes as nat, 0) == scale_bytes(b as nat, count as nat),
        decreases b,
    {
        b = b / 1024;
        count = count + 1;
    }
    let mut s = to_decimal(b as u64);
    s.append(" ");
    s.append(unit_str(count));
    s
}

/// The total size of the files of the given packages.
pub open spec fn content_bytes(pkgs: Seq<crate::store::Package>) -> nat
    decreases pkgs.len(),
{
    if pkgs.len() == 0 {
        0
    } else {
        content_bytes(pkgs.drop_last()) + files_bytes(pkgs.last().files@)
    }
}

/// The total size of the given files.
pub open spec fn files_bytes(files: Seq<crate::store::File>) -> nat
    decreases files.len(),
{
    if files.len() == 0 {
        0
    } else {
        files_bytes(files.drop_last()) + files.last().content@.len()
    }
}

/// The number of files of the given packages.
pub open spec fn files_in(pkgs: Seq<crate::store::Package>) -> nat
    decreases pkgs.len(),
{
    if pkgs.len() == 0 {
        0
    } else {
        files_in(pkgs.drop_last()) + pkgs.last().files@.len()
    }
}

/// The line shown before an upload: how many files, and their total size.
pub fn upload_summary(library: &Library) -> (r: String)
    requires
        content_bytes(library.packages@) <= usize::MAX,
        files_in(library.packages@) <= usize::MAX,
    ensures
        r@ == "Uploading "@ + decimal(files_in(library.packages@)) + " files, total: "@
            + decimal(scale_bytes(content_bytes(library.packages@), 0).0) + " "@ + unit_name(
            scale_bytes(content_bytes(library.packages@), 0).1,
        ),
{
    let ghost pkgs = library.packages@;
    let mut count: usize = 0;
    let mut total: usize = 0;
    let mut i: usize = 0;
    assert(pkgs.take(0) =~= Seq::<crate::store::Package>::empty());
    while i < library.packages.len()
        invariant
            0 <= i <= library.packages.len(),
            pkgs == library.packages@,
            content_bytes(pkgs) <= usize::MAX,
            files_in(pkgs) <= usize::MAX,
            total == content_bytes(pkgs.take(i as int)),
            count == files_in(pkgs.take(i as int)),
        decreases library.packages.len() - i,
    {
        assert(pkgs.take(i + 1).drop_last() =~= pkgs.take(i as int));
        proof {
            lemma_prefix_sums(pkgs, i + 1);
        }
        let files = &library.packages[i].files;
        let ghost fs = files@;
        let mut j: usize = 0;
        let mut sub: usize = 0;
        assert(fs.take(0) =~= Seq::<crate::store::File>::empty());
        while j < files.len()
            invariant
                0 <= j <= files.len(),
                fs == files@,
                total + files_bytes(fs) <= usize::MAX,
                sub == files_bytes(fs.take(j as int)),
            decreases files.len() - j,
        {
            assert(fs.take(j + 1).drop_last() =~= fs.take(j as int));
            proof {
                lemma_files_prefix(fs, j + 1);
            }
            sub = sub + files[j].content.len();
            j = j + 1;
        }
        assert(fs.take(j as int) =~= fs);
        total = total + sub;
        count = count + files.len();
        i = i + 1;
    }
    let mut s = String::from_str("Uploading ");
    s.append(to_decimal(count as u64).as_str());
    s.append(" files, total: ");
    s.append(bytes_to_human_readable(total).as_str());
    assert(pkgs.take(i as int) =~= pkgs);
    s
}

proof fn lemma_prefix_sums(pkgs: Seq<crate::store::Package>, k: int)
    requires
        0 <= k <= pkgs.len(),
    ensures
        content_bytes(pkgs.take(k)) <= content_bytes(pkgs),
        files_in(pkgs.take(k)) <= files_in(pkgs),
    decreases pkgs.len(),
{
    if k < pkgs.len() {
        assert(pkgs.drop_last().take(k) =~= pkgs.take(k));
        lemma_prefix_sums(pkgs.drop_last(), k);
    } else {
        assert(pkgs.take(k) =~= pkgs);
    }
}

proof fn lemma_files_prefix(files: Seq<crate::store::File>, k: int)
    requires
        0 <= k <= files.len(),
    ensures
        files_bytes(files.take(k)) <= files_bytes(files),
    decreases files.len(),
{
    if k < files.len() {
        assert(files.drop_last().take(k) =~= files.take(k));
        lemma_files_prefix(files.drop_last(), k);
    } else {
        assert(files.take(k) =~= files);
    }
}

/// The files of the packages, package after package, each package's files in order.
pub open spec fn all_files(pkgs: Seq<Package>) -> Seq<File>
    decreases pkgs.len(),
{
    if pkgs.len() == 0 {
        Seq::empty()
    } else {
        all_files(pkgs.drop_last()) + pkgs.last().files@
    }
}

/// The upload requests for a library: each of its files, in order, tagged
/// `name:version`.
pub fn upload_requests(library: Library) -> (r: Vec<(String, File)>)
    ensures
        r@.len() == all_files(library.packages@).len(),
        forall|k: int| 0 <= k < r@.len() ==> (#[trigger] r@[k]).0@ == library.name@ + ":"@ + library.version@
            && r@[k].1 == all_files(library.packages@)[k],
{
    let tag = library_tag(library.name.as_str(), library.version.as_str());
    let ghost pkgs = library.packages@;
    let mut rest = library.packages;
    let n = rest.len();
    let mut out: Vec<(String, File)> = Vec::new();
    let mut i: usize = 0;
    assert(rest@ =~= pkgs.skip(0));
    assert(all_files(pkgs.take(0)) =~= Seq::<File>::empty());
    while i < n
        invariant
            n == pkgs.len(),
            0 <= i <= n,
            rest@ == pkgs.skip(i as int),
            out@.len() == all_files(pkgs.take(i as int)).len(),
            forall|k: int| 0 <= k < out@.len() ==> (#[trigger] out@[k]).0@ == tag@ && out@[k].1 == all_files(
                pkgs.take(i as int),
            )[k],
        decreases n - i,
    {
        let pkg = rest.remove(0);
        assert(pkg == pkgs[i as int]);
        assert(rest@ =~= pkgs.skip(i + 1));
        assert(pkgs.take(i + 1).drop_last() =~= pkgs.take(i as int));
        let ghost before = all_files(pkgs.take(i as int));
        let ghost fs = pkg.files@;
        assert(all_files(pkgs.take(i + 1)) == before + fs);
        let mut files = pkg.files;
        let m = files.len();
        let mut j: usize = 0;
        assert(files@ =~= fs.skip(0));
        while j < m
            invariant
                m == fs.len(),
                0 <= j <= m,
                files@ == fs.skip(j as int),
                out@.len() == before.len() + j,
                forall|k: int| 0 <= k < out@.len() ==> (#[trigger] out@[k]).0@ == tag@ && out@[k].1 == (before
                    + fs)[k],
            decreases m - j,
        {
            let f = files.remove(0);
            assert(f == fs[j as int]);
            assert(files@ =~= fs.skip(j + 1));
            let t = tag.clone();
            out.push((t, f));
            j = j + 1;
        }
        i = i + 1;
    }
    assert(pkgs.take(n as int) =~= pkgs);
    out
}

/// The pause between two upload requests, in milliseconds: uploads of more than a
/// hundred files are throttled.
pub fn upload_throttle_millis(uploads: usize) -> (r: u64)
    ensures
        r == (if uploads > 100 { 50u64 } else { 0u64 }),
{
    if uploads > 100 {
        50
    } else {
        0
    }
}

/// What a download answer carries: the library itself, or a compressed archive.
pub enum DownloadPayload {
    Protobuf(Library),
    Gz(Vec<u8>),
}

/// The library a download answer carries; archives cannot be unpacked.
pub fn unpack_download(payload: Option<DownloadPayload>) -> (r: Result<Library, String>)
    ensures
        payload matches Some(DownloadPayload::Protobuf(lib)) ==> r == Ok::<Library, String>(lib),
        !(payload matches Some(DownloadPayload::Protobuf(_))) ==> (r matches Err(m) && m@
            == "error while unpacking download response"@),
{
    match payload {
        Some(DownloadPayload::Protobuf(lib)) => Ok(lib),
        _ => Err(String::from_str("error while unpacking download response")),
    }
}

} // verus!
