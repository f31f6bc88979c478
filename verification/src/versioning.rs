//! Picking, for each required package, the greatest available version that
//! satisfies its semantic-version requirement.
use vstd::prelude::*;

verus! {

#[verifier::external_type_specification]
#[verifier::external_body]
pub struct ExSemverVersion(semver::Version);

#[verifier::external_type_specification]
#[verifier::external_body]
pub struct ExSemverVersionReq(semver::VersionReq);

/// `semver::Version::parse` accepts the text.
pub uninterp spec fn semver_version_valid(text: Seq<char>) -> bool;

/// `semver::VersionReq::parse` accepts the text.
pub uninterp spec fn semver_req_valid(text: Seq<char>) -> bool;

/// The requirement parsed from `req` matches the version parsed from `version`.
pub uninterp spec fn semver_req_matches(req: Seq<char>, version: Seq<char>) -> bool;

/// The version parsed from `a` orders strictly after the one parsed from `b`.
pub uninterp spec fn semver_version_gt(a: Seq<char>, b: Seq<char>) -> bool;

/// The text that the version parsed from `text` displays as.
pub uninterp spec fn semver_version_display(text: Seq<char>) -> Seq<char>;

pub open spec fn is_digit(c: char) -> bool {
    '0' <= c && c <= '9'
}

/// The value of a string of decimal digits.
pub open spec fn numeral_value(s: Seq<char>) -> nat
    decreases s.len(),
{
    if s.len() == 0 {
        0
    } else {
        numeral_value(s.drop_last()) * 10 + ((s.last() as int - '0' as int) as nat)
    }
}

/// A decimal numeral without leading zeros whose value fits in 64 bits.
pub open spec fn is_numeral(s: Seq<char>) -> bool {
    &&& s.len() >= 1
    &&& forall|i: int| 0 <= i < s.len() ==> is_digit(#[trigger] s[i])
    &&& (s.len() == 1 || s[0] != '0')
    &&& numeral_value(s) <= u64::MAX
}

/// `s` reads `major.minor.patch` with dots at positions `i` and `j`.
pub open spec fn release_split(s: Seq<char>, i: int, j: int) -> bool {
    &&& 0 < i < j < s.len() - 1
    &&& s[i] == '.'
    &&& s[j] == '.'
    &&& is_numeral(s.subrange(0, i))
    &&& is_numeral(s.subrange(i + 1, j))
    &&& is_numeral(s.subrange(j + 1, s.len() as int))
}

/// A plain release version `major.minor.patch`, without pre-release or build parts.
pub open spec fn is_release_text(s: Seq<char>) -> bool {
    exists|i: int, j: int| release_split(s, i, j)
}

/// The numbers `(major, minor, patch)` of a release text.
pub open spec fn release_key(s: Seq<char>) -> (nat, nat, nat) {
    let (i, j) = choose|i: int, j: int| release_split(s, i, j);
    (
        numeral_value(s.subrange(0, i)),
        numeral_value(s.subrange(i + 1, j)),
        numeral_value(s.subrange(j + 1, s.len() as int)),
    )
}

/// Lexicographic order on `(major, minor, patch)`.
pub open spec fn key_gt(a: (nat, nat, nat), b: (nat, nat, nat)) -> bool {
    a.0 > b.0 || (a.0 == b.0 && (a.1 > b.1 || (a.1 == b.1 && a.2 > b.2)))
}

/// A parsed version together with the text it was parsed from.
struct ParsedVersion {
    inner: semver::Version,
    text: String,
}

/// A parsed requirement together with the text it was parsed from.
struct ParsedReq {
    inner: semver::VersionReq,
    text: String,
}

/// Calls `semver::Version::parse`. The contract claims that it accepts exactly
/// the texts of `semver_version_valid`, and at least every plain `major.minor.patch`
/// release without leading zeros whose numbers fit in 64 bits. The parsed value is
/// kept beside the text it came from; the other trusted items read it as the parse
/// of that text. As `Version`'s `Ord` is a total order, no version orders strictly
/// after itself.
#[verifier::external_body]
fn parse_version(text: &str) -> (r: Option<ParsedVersion>)
    ensures
        r is Some <==> semver_version_valid(text@),
        is_release_text(text@) ==> r is Some,
        r matches Some(v) ==> v.text@ == text@,
        r matches Some(v) ==> !semver_version_gt(v.text@, v.text@),
{
    semver::Version::parse(text).ok().map(|inner| ParsedVersion { inner, text: text.to_string() })
}

/// Calls `semver::VersionReq::parse`; the contract claims it accepts exactly the
/// texts of `semver_req_valid`.
#[verifier::external_body]
fn parse_req(text: &str) -> (r: Option<ParsedReq>)
    ensures
        r is Some <==> semver_req_valid(text@),
        r matches Some(q) ==> q.text@ == text@,
{
    semver::VersionReq::parse(text).ok().map(|inner| ParsedReq { inner, text: text.to_string() })
}

/// Calls `semver::VersionReq::matches`; the result is named `semver_req_matches`
/// of the two source texts.
#[verifier::external_body]
fn req_matches(req: &ParsedReq, version: &ParsedVersion) -> (r: bool)
    ensures
        r == semver_req_matches(req.text@, version.text@),
{
    req.inner.matches(&version.inner)
}

/// Calls `>` on two `semver::Version`s (the derived order: major, minor, patch,
/// pre-release, build). The contract claims the named result; that the order is
/// transitive, as `Ord` requires (a version after `a` is after `b` when `a` is);
/// and that two plain releases compare by `(major, minor, patch)`, as semver
/// documents.
#[verifier::external_body]
fn version_gt(a: &ParsedVersion, b: &ParsedVersion) -> (r: bool)
    ensures
        r == semver_version_gt(a.text@, b.text@),
        r ==> forall|c: Seq<char>|
            semver_version_valid(c) && #[trigger] semver_version_gt(c, a.text@) ==> semver_version_gt(
                c,
                b.text@,
            ),
        is_release_text(a.text@) && is_release_text(b.text@) ==> r == key_gt(
            release_key(a.text@),
            release_key(b.text@),
        ),
{
    a.inner > b.inner
}

/// Calls `to_string` on a `semver::Version`. The contract claims the named result,
/// and that a plain release displays as the text it was parsed from.
#[verifier::external_body]
fn version_display(v: &ParsedVersion) -> (r: String)
    ensures
        r@ == semver_version_display(v.text@),
        is_release_text(v.text@) ==> r@ == v.text@,
{
    v.inner.to_string()
}

/// Versions are given as (package, list of version texts); requirements as (package, requirement text).
pub open spec fn avail_view(avail: Seq<(String, Vec<String>)>) -> Seq<(Seq<char>, Seq<Seq<char>>)> {
    avail.map_values(|e: (String, Vec<String>)| (e.0@, e.1@.map_values(|v: String| v@)))
}

pub open spec fn pairs_view(pairs: Seq<(String, String)>) -> Seq<(Seq<char>, Seq<char>)> {
    pairs.map_values(|e: (String, String)| (e.0@, e.1@))
}

/// The versions listed for `name` (the first entry of that name).
pub open spec fn lookup(avail: Seq<(Seq<char>, Seq<Seq<char>>)>, name: Seq<char>) -> Option<Seq<Seq<char>>>
    decreases avail.len(),
{
    if avail.len() == 0 {
        None
    } else if avail[0].0 == name {
        Some(avail[0].1)
    } else {
        lookup(avail.drop_first(), name)
    }
}

/// Scans `vs` from the left, keeping the greatest version that matches `req`
/// (the earlier one on ties). Fails with the first text that is not a version.
pub open spec fn best_version(req: Seq<char>, vs: Seq<Seq<char>>) -> Result<Option<Seq<char>>, Seq<char>>
    decreases vs.len(),
{
    if vs.len() == 0 {
        Ok(None)
    } else {
        match best_version(req, vs.drop_last()) {
            Err(e) => Err(e),
            Ok(m) => {
                let v = vs.last();
                if !semver_version_valid(v) {
                    Err(v)
                } else if semver_req_matches(req, v) {
                    Ok(
                        Some(
                            match m {
                                None => v,
                                Some(mv) => if semver_version_gt(v, mv) {
                                    v
                                } else {
                                    mv
                                },
                            },
                        ),
                    )
                } else {
                    Ok(m)
                }
            },
        }
    }
}

/// The resolved version text for one requirement, or the error message.
pub open spec fn resolve_one(avail: Seq<(Seq<char>, Seq<Seq<char>>)>, name: Seq<char>, req: Seq<char>) -> Result<Seq<char>, Seq<char>> {
    match lookup(avail, name) {
        None => Err("Package "@ + name + " not found"@),
        Some(vs) => if !semver_req_valid(req) {
            Err("Invalid version requirement for "@ + name)
        } else {
            match best_version(req, vs) {
                Err(v) => Err("Invalid version "@ + v + " for "@ + name),
                Ok(None) => Err("No matching version found for "@ + name),
                Ok(Some(b)) => Ok(semver_version_display(b)),
            }
        },
    }
}

/// Resolves the requirements in order; the first failure is the result.
pub open spec fn resolve_all(avail: Seq<(Seq<char>, Seq<Seq<char>>)>, reqs: Seq<(Seq<char>, Seq<char>)>) -> Result<Seq<(Seq<char>, Seq<char>)>, Seq<char>>
    decreases reqs.len(),
{
    if reqs.len() == 0 {
        Ok(Seq::empty())
    } else {
        match resolve_all(avail, reqs.drop_last()) {
            Err(e) => Err(e),
            Ok(done) => match resolve_one(avail, reqs.last().0, reqs.last().1) {
                Err(e) => Err(e),
                Ok(v) => Ok(done.push((reqs.last().0, v))),
            },
        }
    }
}

pub open spec fn all_release(vs: Seq<Seq<char>>) -> bool {
    forall|i: int| 0 <= i < vs.len() ==> is_release_text(#[trigger] vs[i])
}

/// `v` is one of `vs`, matches `req`, and no matching version of `vs` is a greater release.
pub open spec fn greatest_match(req: Seq<char>, vs: Seq<Seq<char>>, v: Seq<char>) -> bool {
    &&& vs.contains(v)
    &&& semver_req_matches(req, v)
    &&& forall|w: Seq<char>|
        #[trigger] vs.contains(w) && semver_req_matches(req, w) ==> !key_gt(
            release_key(w),
            release_key(v),
        )
}

/// `v` is one of `vs`, matches `req`, and no version of `vs` that matches `req`
/// orders after it in semver's order.
pub open spec fn greatest_by_order(req: Seq<char>, vs: Seq<Seq<char>>, v: Seq<char>) -> bool {
    &&& vs.contains(v)
    &&& semver_req_matches(req, v)
    &&& forall|w: Seq<char>| #[trigger] vs.contains(w) && semver_req_matches(req, w) ==> !semver_version_gt(w, v)
}

/// `out` is the text of a greatest version listed for `name` that `req` matches.
pub open spec fn resolved_max(avail: Seq<(Seq<char>, Seq<Seq<char>>)>, name: Seq<char>, req: Seq<char>, out: Seq<char>) -> bool {
    exists|v: Seq<char>| #[trigger] greatest_by_order(req, lookup(avail, name)->Some_0, v) && out == semver_version_display(v)
}

/// Where the versions listed for `name` are all plain releases, `v` is the greatest of them
/// that `req` matches.
pub open spec fn resolved_greatest(avail: Seq<(Seq<char>, Seq<Seq<char>>)>, name: Seq<char>, req: Seq<char>, v: Seq<char>) -> bool {
    let vs = lookup(avail, name)->Some_0;
    all_release(vs) ==> greatest_match(req, vs, v)
}

proof fn lemma_best_version_err_stays(req: Seq<char>, vs: Seq<Seq<char>>, k: int)
    requires
        0 <= k <= vs.len(),
        best_version(req, vs.take(k)) is Err,
    ensures
        best_version(req, vs) == best_version(req, vs.take(k)),
    decreases vs.len(),
{
    if vs.len() == k {
        assert(vs.take(k) =~= vs);
    } else {
        assert(vs.drop_last().take(k) =~= vs.take(k));
        lemma_best_version_err_stays(req, vs.drop_last(), k);
    }
}

proof fn lemma_resolve_all_err_stays(avail: Seq<(Seq<char>, Seq<Seq<char>>)>, reqs: Seq<(Seq<char>, Seq<char>)>, k: int)
    requires
        0 <= k <= reqs.len(),
        resolve_all(avail, reqs.take(k)) is Err,
    ensures
        resolve_all(avail, reqs) == resolve_all(avail, reqs.take(k)),
    decreases reqs.len(),
{
    if reqs.len() == k {
        assert(reqs.take(k) =~= reqs);
    } else {
        assert(reqs.drop_last().take(k) =~= reqs.take(k));
        lemma_resolve_all_err_stays(avail, reqs.drop_last(), k);
    }
}

proof fn lemma_key_gt_order(a: (nat, nat, nat), b: (nat, nat, nat), c: (nat, nat, nat))
    ensures
        key_gt(a, b) && key_gt(b, c) ==> key_gt(a, c),
        !key_gt(a, b) && !key_gt(b, a) ==> a == b,
        key_gt(a, b) ==> !key_gt(b, a),
{
}

/// Resolving the requirement `req` of `name` fails: the package is not listed, the
/// requirement does not parse, one of its listed versions does not parse, or none of
/// them satisfies the requirement.
pub open spec fn requirement_fails(avail: Seq<(Seq<char>, Seq<Seq<char>>)>, name: Seq<char>, req: Seq<char>) -> bool {
    match lookup(avail, name) {
        None => true,
        Some(vs) => {
            ||| !semver_req_valid(req)
            ||| exists|i: int| 0 <= i < vs.len() && !semver_version_valid(#[trigger] vs[i])
            ||| !exists|i: int| 0 <= i < vs.len() && semver_req_matches(req, #[trigger] vs[i])
        },
    }
}

proof fn lemma_best_version_outcome(req: Seq<char>, vs: Seq<Seq<char>>)
    ensures
        best_version(req, vs) is Err <==> exists|i: int| 0 <= i < vs.len() && !semver_version_valid(#[trigger] vs[i]),
        best_version(req, vs) == Ok::<Option<Seq<char>>, Seq<char>>(None) <==> (forall|i: int|
            0 <= i < vs.len() ==> semver_version_valid(#[trigger] vs[i])) && !exists|i: int|
            0 <= i < vs.len() && semver_req_matches(req, #[trigger] vs[i]),
    decreases vs.len(),
{
    if vs.len() > 0 {
        let p = vs.drop_last();
        lemma_best_version_outcome(req, p);
        assert forall|i: int| 0 <= i < p.len() implies #[trigger] p[i] == vs[i] by {}
        if exists|i: int| 0 <= i < p.len() && !semver_version_valid(#[trigger] p[i]) {
            let i = choose|i: int| 0 <= i < p.len() && !semver_version_valid(#[trigger] p[i]);
            assert(vs[i] == p[i]);
        }
        if exists|i: int| 0 <= i < p.len() && semver_req_matches(req, #[trigger] p[i]) {
            let i = choose|i: int| 0 <= i < p.len() && semver_req_matches(req, #[trigger] p[i]);
            assert(vs[i] == p[i]);
        }
        if exists|i: int| 0 <= i < vs.len() && !semver_version_valid(#[trigger] vs[i]) {
            let i = choose|i: int| 0 <= i < vs.len() && !semver_version_valid(#[trigger] vs[i]);
            if i < p.len() {
                assert(p[i] == vs[i]);
            }
        }
        if exists|i: int| 0 <= i < vs.len() && semver_req_matches(req, #[trigger] vs[i]) {
            let i = choose|i: int| 0 <= i < vs.len() && semver_req_matches(req, #[trigger] vs[i]);
            if i < p.len() {
                assert(p[i] == vs[i]);
            }
        }
    }
}

/// Resolving fails exactly when some requirement fails; versions listed for packages
/// that are not required play no part.
pub proof fn lemma_resolve_all_fails_iff(avail: Seq<(Seq<char>, Seq<Seq<char>>)>, reqs: Seq<(Seq<char>, Seq<char>)>)
    ensures
        resolve_all(avail, reqs) is Err <==> exists|k: int|
            0 <= k < reqs.len() && requirement_fails(avail, (#[trigger] reqs[k]).0, reqs[k].1),
    decreases reqs.len(),
{
    if reqs.len() > 0 {
        let p = reqs.drop_last();
        lemma_resolve_all_fails_iff(avail, p);
        let last = reqs.last();
        match lookup(avail, last.0) {
            None => {},
            Some(vs) => lemma_best_version_outcome(last.1, vs),
        }
        if exists|k: int| 0 <= k < p.len() && requirement_fails(avail, (#[trigger] p[k]).0, p[k].1) {
            let k = choose|k: int| 0 <= k < p.len() && requirement_fails(avail, (#[trigger] p[k]).0, p[k].1);
            assert(reqs[k] == p[k]);
        }
        if exists|k: int| 0 <= k < reqs.len() && requirement_fails(avail, (#[trigger] reqs[k]).0, reqs[k].1) {
            let k = choose|k: int| 0 <= k < reqs.len() && requirement_fails(avail, (#[trigger] reqs[k]).0, reqs[k].1);
            if k < p.len() {
                assert(p[k] == reqs[k]);
            } else {
                assert(reqs[reqs.len() - 1] == last);
            }
        }
        if requirement_fails(avail, last.0, last.1) {
            assert(reqs[reqs.len() - 1] == last);
        }
    }
}

/// The greatest version of `versions` that `req` matches, scanning from the left.
fn best_match(req: &ParsedReq, versions: &Vec<String>) -> (r: Result<Option<ParsedVersion>, String>)
    ensures
        best_version(req.text@, versions@.map_values(|v: String| v@)) == (match r {
            Err(e) => Err::<Option<Seq<char>>, Seq<char>>(e@),
            Ok(None) => Ok(None),
            Ok(Some(b)) => Ok(Some(b.text@)),
        }),
        r matches Ok(Some(b)) ==> (all_release(versions@.map_values(|v: String| v@))
            ==> greatest_match(req.text@, versions@.map_values(|v: String| v@), b.text@)),
        r matches Ok(Some(b)) ==> greatest_by_order(req.text@, versions@.map_values(|v: String| v@), b.text@),
{
    let ghost vs = versions@.map_values(|v: String| v@);
    let mut best: Option<ParsedVersion> = None;
    let mut i: usize = 0;
    while i < versions.len()
        invariant
            0 <= i <= versions.len(),
            vs == versions@.map_values(|v: String| v@),
            best_version(req.text@, vs.take(i as int)) == Ok::<Option<Seq<char>>, Seq<char>>(
                match best {
                    None => None,
                    Some(b) => Some(b.text@),
                },
            ),
            best is None ==> forall|w: Seq<char>|
                #[trigger] vs.take(i as int).contains(w) ==> !semver_req_matches(req.text@, w),
            best matches Some(b) ==> vs.take(i as int).contains(b.text@) && semver_req_matches(
                req.text@,
                b.text@,
            ),
            best matches Some(b) ==> (all_release(vs) ==> forall|w: Seq<char>|
                #[trigger] vs.take(i as int).contains(w) && semver_req_matches(req.text@, w)
                    ==> !key_gt(release_key(w), release_key(b.text@))),
            forall|w: Seq<char>| #[trigger] vs.take(i as int).contains(w) ==> semver_version_valid(w),
            best matches Some(b) ==> semver_version_valid(b.text@) && forall|w: Seq<char>|
                #[trigger] vs.take(i as int).contains(w) && semver_req_matches(req.text@, w)
                    ==> !semver_version_gt(w, b.text@),
        decreases versions.len() - i,
    {
        assert(vs.take(i + 1).drop_last() =~= vs.take(i as int));
        assert(vs.take(i + 1).last() == versions@[i as int]@);
        let parsed = parse_version(versions[i].as_str());
        match parsed {
            None => {
                proof {
                    lemma_best_version_err_stays(req.text@, vs, i + 1);
                }
                return Err(versions[i].clone());
            },
            Some(v) => {
                let ghost prev = best;
                if req_matches(req, &v) {
                    let next = match best {
                        None => v,
                        Some(m) => {
                            if version_gt(&v, &m) {
                                proof {
                                    if all_release(vs) {
                                        assert(is_release_text(vs[i as int]));
                                        assert(vs.take(i as int).contains(m.text@));
                                        let k = choose|k: int| 0 <= k < i && vs.take(i as int)[k] == m.text@;
                                        assert(is_release_text(vs[k]));
                                        assert forall|w: Seq<char>|
                                            #[trigger] vs.take(i as int).contains(w) && semver_req_matches(req.text@, w)
                                            implies !key_gt(release_key(w), release_key(v.text@)) by {
                                            lemma_key_gt_order(release_key(w), release_key(m.text@), release_key(v.text@));
                                            lemma_key_gt_order(release_key(v.text@), release_key(m.text@), release_key(w));
                                        }
                                    }
                                }
                                v
                            } else {
                                proof {
                                    if all_release(vs) {
                                        assert(is_release_text(vs[i as int]));
                                        let k = choose|k: int| 0 <= k < i && vs.take(i as int)[k] == m.text@;
                                        assert(is_release_text(vs[k]));
                                    }
                                }
                                m
                            }
                        },
                    };
                    best = Some(next);
                }
                proof {
                    assert forall|w: Seq<char>| #[trigger] vs.take(i + 1).contains(w) implies vs.take(i as int).contains(w) || w == vs[i as int] by {
                        let k = choose|k: int| 0 <= k < i + 1 && #[trigger] vs.take(i + 1)[k] == w;
                        if k < i {
                            assert(vs.take(i as int)[k] == w);
                        }
                    }
                    if best is Some {
                        let b = best->Some_0;
                        if vs.take(i as int).contains(b.text@) {
                            let k = choose|k: int| 0 <= k < i && vs.take(i as int)[k] == b.text@;
                            assert(vs.take(i + 1)[k] == b.text@);
                        } else {
                            assert(vs.take(i + 1)[i as int] == b.text@);
                        }
                    }
                }
            },
        }
        i = i + 1;
    }
    assert(vs.take(i as int) =~= vs);
    Ok(best)
}

/// Index of the first entry of `avail` named `name`.
fn find_package(avail: &Vec<(String, Vec<String>)>, name: &String) -> (r: Option<usize>)
    ensures
        match r {
            None => lookup(avail_view(avail@), name@) is None,
            Some(k) => k < avail.len() && lookup(avail_view(avail@), name@) == Some(
                avail@[k as int].1@.map_values(|v: String| v@),
            ),
        },
{
    let ghost a = avail_view(avail@);
    assert(a.skip(0) =~= a);
    let mut i: usize = 0;
    while i < avail.len()
        invariant
            0 <= i <= avail.len(),
            a == avail_view(avail@),
            lookup(a, name@) == lookup(a.skip(i as int), name@),
        decreases avail.len() - i,
    {
        assert(a.skip(i as int).drop_first() =~= a.skip(i + 1));
        if avail[i].0.eq(name) {
            return Some(i);
        }
        i = i + 1;
    }
    None
}

fn concat3(a: &str, b: &str, c: &str) -> (r: String)
    ensures
        r@ == a@ + b@ + c@,
{
    let mut s = String::from_str(a);
    s.append(b);
    s.append(c);
    s
}

/// Resolves the best matching version for each package, given the versions available
/// for each package and the requirement of each package.
///
/// Fails on the first requirement (in the given order) whose package is unknown, whose
/// requirement or one of whose versions does not parse, or that no version satisfies.
/// The result names the required packages in order, each with the text of a listed
/// version that satisfies its requirement and after which no other satisfying listed
/// version orders in semver's order. Where all the versions of a package are plain
/// `major.minor.patch` releases, that is the greatest by `(major, minor, patch)`.
pub fn resolve_versions(
    available_versions: Vec<(String, Vec<String>)>,
    package_requirements: Vec<(String, String)>,
) -> (r: Result<Vec<(String, String)>, String>)
    ensures
        resolve_all(avail_view(available_versions@), pairs_view(package_requirements@)) == (match r {
            Ok(v) => Ok::<Seq<(Seq<char>, Seq<char>)>, Seq<char>>(pairs_view(v@)),
            Err(e) => Err(e@),
        }),
        r matches Ok(v) ==> forall|k: int|
            0 <= k < package_requirements@.len() ==> #[trigger] resolved_greatest(
                avail_view(available_versions@),
                package_requirements@[k].0@,
                package_requirements@[k].1@,
                v@[k].1@,
            ),
        r matches Ok(v) ==> v@.len() == package_requirements@.len() && forall|k: int|
            0 <= k < package_requirements@.len() ==> (#[trigger] v@[k]).0@ == package_requirements@[k].0@,
        r matches Ok(v) ==> forall|k: int|
            0 <= k < package_requirements@.len() ==> #[trigger] resolved_max(
                avail_view(available_versions@),
                package_requirements@[k].0@,
                package_requirements@[k].1@,
                v@[k].1@,
            ),
{
    let ghost avail = avail_view(available_versions@);
    let ghost reqs = pairs_view(package_requirements@);
    let mut resolved: Vec<(String, String)> = Vec::new();
    let mut i: usize = 0;
    assert(reqs.take(0) =~= Seq::<(Seq<char>, Seq<char>)>::empty());
    assert(pairs_view(resolved@) =~= Seq::<(Seq<char>, Seq<char>)>::empty());
    while i < package_requirements.len()
        invariant
            0 <= i <= package_requirements.len(),
            avail == avail_view(available_versions@),
            reqs == pairs_view(package_requirements@),
            resolve_all(avail, reqs.take(i as int)) == Ok::<Seq<(Seq<char>, Seq<char>)>, Seq<char>>(
                pairs_view(resolved@),
            ),
            resolved@.len() == i,
            forall|k: int|
                0 <= k < i ==> #[trigger] resolved_greatest(
                    avail,
                    package_requirements@[k].0@,
                    package_requirements@[k].1@,
                    resolved@[k].1@,
                ),
            forall|k: int| 0 <= k < i ==> (#[trigger] resolved@[k]).0@ == package_requirements@[k].0@,
            forall|k: int|
                0 <= k < i ==> #[trigger] resolved_max(
                    avail,
                    package_requirements@[k].0@,
                    package_requirements@[k].1@,
                    resolved@[k].1@,
                ),
        decreases package_requirements.len() - i,
    {
        assert(reqs.take(i + 1).drop_last() =~= reqs.take(i as int));
        let ghost name = package_requirements@[i as int].0@;
        let ghost req_text = package_requirements@[i as int].1@;
        assert(reqs.take(i + 1).last() == (name, req_text));
        let package = &package_requirements[i].0;
        let req_str = &package_requirements[i].1;
        let idx = match find_package(&available_versions, package) {
            None => {
                proof {
                    lemma_resolve_all_err_stays(avail, reqs, i + 1);
                }
                return Err(concat3("Package ", package.as_str(), " not found"));
            },
            Some(k) => k,
        };
        let available = &available_versions[idx].1;
        let req = match parse_req(req_str.as_str()) {
            Some(q) => q,
            None => {
                proof {
                    lemma_resolve_all_err_stays(avail, reqs, i + 1);
                }
                let mut msg = String::from_str("Invalid version requirement for ");
                msg.append(package.as_str());
                return Err(msg);
            },
        };
        let best = match best_match(&req, available) {
            Err(bad) => {
                proof {
                    lemma_resolve_all_err_stays(avail, reqs, i + 1);
                }
                let mut msg = concat3("Invalid version ", bad.as_str(), " for ");
                msg.append(package.as_str());
                return Err(msg);
            },
            Ok(b) => b,
        };
        match best {
            None => {
                proof {
                    lemma_resolve_all_err_stays(avail, reqs, i + 1);
                }
                let mut msg = String::from_str("No matching version found for ");
                msg.append(package.as_str());
                return Err(msg);
            },
            Some(b) => {
                let text = version_display(&b);
                let ghost before = resolved@;
                resolved.push((package.clone(), text));
                proof {
                    assert(pairs_view(resolved@) =~= pairs_view(before).push((name, semver_version_display(b.text@))));
                    let vs = lookup(avail, name)->Some_0;
                    if all_release(vs) {
                        assert(vs.contains(b.text@));
                        let k = choose|k: int| 0 <= k < vs.len() && vs[k] == b.text@;
                        assert(is_release_text(vs[k]));
                    }
                    assert(greatest_by_order(req_text, vs, b.text@));
                    assert(resolved_max(avail, name, req_text, resolved@[i as int].1@));
                    assert forall|k: int| 0 <= k < i + 1 implies (#[trigger] resolved@[k]).0@ == package_requirements@[k].0@ by {
                        if k < i {
                            assert(resolved@[k] == before[k]);
                        }
                    }
                    assert forall|k: int| 0 <= k < i + 1 implies #[trigger] resolved_max(
                        avail,
                        package_requirements@[k].0@,
                        package_requirements@[k].1@,
                        resolved@[k].1@,
                    ) by {
                        if k < i {
                            assert(resolved@[k] == before[k]);
                            assert(resolved_max(
                                avail,
                                package_requirements@[k].0@,
                                package_requirements@[k].1@,
                                before[k].1@,
                            ));
                        }
                    }
                    assert forall|k: int| 0 <= k < i + 1 implies #[trigger] resolved_greatest(
                        avail,
                        package_requirements@[k].0@,
                        package_requirements@[k].1@,
                        resolved@[k].1@,
                    ) by {
                        if k < i {
                            assert(resolved@[k] == before[k]);
                        }
                    }
                }
            },
        }
        i = i + 1;
    }
    assert(reqs.take(i as int) =~= reqs);
    Ok(resolved)
}

} // verus!
