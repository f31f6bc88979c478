//! The lock file `proto-lock.json`: the libraries installed in a project.
use crate::text::str_equal;
use vstd::prelude::*;

verus! {

/// A dependency of an installed library.
pub struct Dependency {
    pub name: String,
    pub version: String,
}

/// An installed library and its dependencies.
pub struct Library {
    pub name: String,
    pub version: String,
    pub dependencies: Vec<Dependency>,
}

/// The installed libraries.
pub struct ProtoLock {
    pub libraries: Vec<Library>,
}

/// The libraries not named `name`, in order.
pub open spec fn without_named(libs: Seq<Library>, name: Seq<char>) -> Seq<Library>
    decreases libs.len(),
{
    if libs.len() == 0 {
        Seq::empty()
    } else if libs.last().name@ == name {
        without_named(libs.drop_last(), name)
    } else {
        without_named(libs.drop_last(), name).push(libs.last())
    }
}

/// The position of the first library named `name`, or -1.
pub open spec fn first_named(libs: Seq<Library>, name: Seq<char>) -> int
    decreases libs.len(),
{
    if libs.len() == 0 {
        -1
    } else if libs[0].name@ == name {
        0
    } else {
        let r = first_named(libs.drop_first(), name);
        if r < 0 {
            -1
        } else {
            r + 1
        }
    }
}

proof fn lemma_first_named(libs: Seq<Library>, name: Seq<char>)
    ensures
        -1 <= first_named(libs, name) < libs.len(),
        first_named(libs, name) >= 0 ==> libs[first_named(libs, name)].name@ == name,
        forall|k: int| 0 <= k < libs.len() && (first_named(libs, name) < 0 || k < first_named(libs, name)) ==> #[trigger] libs[k].name@ != name,
    decreases libs.len(),
{
    if libs.len() > 0 {
        lemma_first_named(libs.drop_first(), name);
        assert forall|k: int| 0 <= k < libs.len() && (first_named(libs, name) < 0 || k < first_named(libs, name)) implies #[trigger] libs[k].name@ != name by {
            if k > 0 {
                assert(libs[k] == libs.drop_first()[k - 1]);
            }
        }
    }
}

/// Scanning from `i`, the first library named `name`.
proof fn lemma_first_named_skip(libs: Seq<Library>, name: Seq<char>, i: int)
    requires
        0 <= i <= libs.len(),
        forall|k: int| 0 <= k < i ==> #[trigger] libs[k].name@ != name,
    ensures
        first_named(libs, name) == (if first_named(libs.skip(i), name) < 0 {
            -1
        } else {
            first_named(libs.skip(i), name) + i
        }),
    decreases i,
{
    if i == 0 {
        assert(libs.skip(0) =~= libs);
    } else {
        assert(libs.drop_first().skip(i - 1) =~= libs.skip(i));
        assert forall|k: int| 0 <= k < i - 1 implies #[trigger] libs.drop_first()[k].name@ != name by {
            assert(libs.drop_first()[k] == libs[k + 1]);
        }
        lemma_first_named_skip(libs.drop_first(), name, i - 1);
    }
}

/// The library found first for `name` has that name.
pub(crate) proof fn lemma_first_named_found(libs: Seq<Library>, name: Seq<char>)
    ensures
        first_named(libs, name) >= 0 ==> libs[first_named(libs, name)].name@ == name,
        -1 <= first_named(libs, name) < libs.len(),
{
    lemma_first_named(libs, name);
}

proof fn lemma_without_named_has_none(libs: Seq<Library>, name: Seq<char>)
    ensures
        forall|k: int| 0 <= k < without_named(libs, name).len() ==> #[trigger] without_named(libs, name)[k].name@
            != name,
    decreases libs.len(),
{
    if libs.len() > 0 {
        lemma_without_named_has_none(libs.drop_last(), name);
        let w = without_named(libs.drop_last(), name);
        if libs.last().name@ != name {
            assert forall|k: int| 0 <= k < w.push(libs.last()).len() implies #[trigger] w.push(
                libs.last(),
            )[k].name@ != name by {
                if k < w.len() {
                    assert(w.push(libs.last())[k] == w[k]);
                }
            }
        }
    }
}

/// Removing the libraries named `name` keeps exactly the others, in order.
pub proof fn lemma_remove_keeps_others(libs: Seq<Library>, name: Seq<char>)
    ensures
        without_named(libs, name) == libs.filter(|l: Library| l.name@ != name),
    decreases libs.len(),
{
    reveal(Seq::filter);
    if libs.len() > 0 {
        lemma_remove_keeps_others(libs.drop_last(), name);
    }
}

/// Once every library named `name` is removed, looking `name` up finds nothing.
pub proof fn lemma_find_after_remove(libs: Seq<Library>, name: Seq<char>)
    ensures
        first_named(without_named(libs, name), name) < 0,
{
    lemma_without_named_has_none(libs, name);
    lemma_first_named(without_named(libs, name), name);
}

/// After a library is added at the end, looking its name up finds the first library of
/// that name that was there already, or else the one added.
pub proof fn lemma_find_after_add(libs: Seq<Library>, lib: Library)
    ensures
        first_named(libs.push(lib), lib.name@) == (if first_named(libs, lib.name@) >= 0 {
            first_named(libs, lib.name@)
        } else {
            libs.len() as int
        }),
    decreases libs.len(),
{
    if libs.len() > 0 {
        assert(libs.push(lib).drop_first() =~= libs.drop_first().push(lib));
        lemma_find_after_add(libs.drop_first(), lib);
    } else {
        assert(libs.push(lib)[0] == lib);
    }
}

/// After the first library named as `lib` is replaced by `lib`, looking that name up
/// finds `lib`, at the same place.
pub proof fn lemma_find_after_update(libs: Seq<Library>, lib: Library)
    requires
        first_named(libs, lib.name@) >= 0,
    ensures
        first_named(libs.update(first_named(libs, lib.name@), lib), lib.name@) == first_named(libs, lib.name@),
        libs.update(first_named(libs, lib.name@), lib)[first_named(libs, lib.name@)] == lib,
{
    let k = first_named(libs, lib.name@);
    lemma_first_named(libs, lib.name@);
    let updated = libs.update(k, lib);
    assert forall|j: int| 0 <= j < k implies #[trigger] updated[j].name@ != lib.name@ by {
        assert(updated[j] == libs[j]);
    }
    lemma_first_named_skip(updated, lib.name@, k);
    assert(updated.skip(k)[0] == lib);
}

impl ProtoLock {
    /// An empty lock.
    pub fn new() -> (l: Self)
        ensures
            l.libraries@.len() == 0,
    {
        ProtoLock { libraries: Vec::new() }
    }

    /// Adds a library at the end.
    pub fn add_library(&mut self, lib: Library)
        ensures
            final(self).libraries@ == old(self).libraries@.push(lib),
    {
        self.libraries.push(lib);
    }

    /// Removes every library of the given name.
    pub fn remove_library(&mut self, lib_name: &str)
        ensures
            final(self).libraries@ == without_named(old(self).libraries@, lib_name@),
    {
        let ghost libs = self.libraries@;
        let mut kept: Vec<Library> = Vec::new();
        let mut old_libs: Vec<Library> = Vec::new();
        std::mem::swap(&mut old_libs, &mut self.libraries);
        let mut rest = old_libs;
        proof {
            assert(kept@ =~= without_named(libs.take(0), lib_name@));
            assert(rest@ =~= libs.skip(0));
        }
        while rest.len() > 0
            invariant
                rest@.len() <= libs.len(),
                rest@ == libs.skip(libs.len() - rest@.len()),
                kept@ == without_named(libs.take(libs.len() - rest@.len()), lib_name@),
            decreases rest.len(),
        {
            let ghost i = libs.len() - rest@.len();
            let lib = rest.remove(0);
            proof {
                assert(lib == libs[i]);
                assert(libs.take(i + 1).drop_last() =~= libs.take(i));
                assert(rest@ =~= libs.skip(i + 1));
            }
            if !str_equal(lib.name.as_str(), lib_name) {
                kept.push(lib);
            }
        }
        proof {
            assert(libs.take(libs.len() as int) =~= libs);
        }
        self.libraries = kept;
    }

    /// Replaces the first library named as `updated_lib`; changes nothing when there is none.
    pub fn update_library(&mut self, updated_lib: Library)
        ensures
            ({
                let k = first_named(old(self).libraries@, updated_lib.name@);
                if k < 0 {
                    final(self).libraries@ == old(self).libraries@
                } else {
                    final(self).libraries@ == old(self).libraries@.update(k, updated_lib)
                }
            }),
    {
        let ghost libs = self.libraries@;
        let mut i: usize = 0;
        while i < self.libraries.len()
            invariant
                0 <= i <= self.libraries.len(),
                self.libraries@ == libs,
                libs == old(self).libraries@,
                forall|k: int| 0 <= k < i ==> #[trigger] libs[k].name@ != updated_lib.name@,
            decreases self.libraries.len() - i,
        {
            if str_equal(self.libraries[i].name.as_str(), updated_lib.name.as_str()) {
                proof {
                    lemma_first_named_skip(libs, updated_lib.name@, i as int);
                    assert(libs.skip(i as int)[0] == libs[i as int]);
                    assert(first_named(libs.skip(i as int), updated_lib.name@) == 0);
                }
                self.libraries.set(i, updated_lib);
                return;
            }
            i = i + 1;
        }
        proof {
            lemma_first_named(libs, updated_lib.name@);
            if first_named(libs, updated_lib.name@) >= 0 {
                let k = first_named(libs, updated_lib.name@);
                assert(libs[k].name@ != updated_lib.name@);
            }
        }
    }

    /// The first library of the given name; none when no name is given.
    pub fn find_library(&self, lib_name: Option<String>) -> (r: Option<&Library>)
        ensures
            lib_name is None ==> r is None,
            lib_name matches Some(n) ==> (first_named(self.libraries@, n@) < 0 ==> r is None),
            lib_name matches Some(n) ==> (first_named(self.libraries@, n@) >= 0 ==> (r matches Some(l)
                && *l == self.libraries@[first_named(self.libraries@, n@)])),
    {
        let ghost given = lib_name;
        match lib_name {
            None => None,
            Some(n) => {
                let mut i: usize = 0;
                while i < self.libraries.len()
                    invariant
                        0 <= i <= self.libraries.len(),
                        given == Some(n),
                        given == lib_name,
                        forall|k: int| 0 <= k < i ==> #[trigger] self.libraries@[k].name@ != n@,
                    decreases self.libraries.len() - i,
                {
                    if str_equal(self.libraries[i].name.as_str(), n.as_str()) {
                        proof {
                            lemma_first_named_skip(self.libraries@, n@, i as int);
                            assert(self.libraries@.skip(i as int)[0] == self.libraries@[i as int]);
                            assert(first_named(self.libraries@.skip(i as int), n@) == 0);
                        }
                        return Some(&self.libraries[i]);
                    }
                    i = i + 1;
                }
                proof {
                    lemma_first_named(self.libraries@, n@);
                    if first_named(self.libraries@, n@) >= 0 {
                        let k = first_named(self.libraries@, n@);
                        assert(self.libraries@[k].name@ != n@);
                    }
                }
                None
            },
        }
    }

    /// The dependencies of a library as the lock records them; none are recorded yet.
    pub fn resolve_dependencies(&self, _lib_name: String) -> (r: Result<Vec<Dependency>, String>)
        ensures
            r matches Ok(v) && v@.len() == 0,
    {
        Ok(Vec::new())
    }

    /// Checks the lock; every lock passes.
    pub fn validate(&self) -> (r: Result<(), String>)
        ensures
            r is Ok,
    {
        Ok(())
    }
}

} // verus!
