//! A dependency graph of packages that never holds a cycle.
use vstd::hash_map::StringHashMap;
use vstd::prelude::*;

verus! {

/// The dependency graph as a map from a package name to the names it depends on.
pub type Graph = Map<Seq<char>, Seq<Seq<char>>>;

/// A package and the names of the packages it depends on.
pub struct Package {
    pub name: String,
    pub dependencies: Vec<String>,
}

impl Package {
    /// The names of the dependencies, as sequences of characters.
    pub open spec fn dep_names(self) -> Seq<Seq<char>> {
        self.dependencies@.map_values(|d: String| d@)
    }
}

/// `p` follows dependency edges: each element but the last is a node of `g`
/// whose dependencies hold the next element.
pub open spec fn is_path(g: Graph, p: Seq<Seq<char>>) -> bool {
    &&& p.len() >= 1
    &&& forall|i: int|
        0 <= i < p.len() - 1 ==> g.contains_key(#[trigger] p[i]) && g[p[i]].contains(p[i + 1])
}

/// Following dependency edges from `a` leads to `b` (every name reaches itself).
pub open spec fn reaches(g: Graph, a: Seq<char>, b: Seq<char>) -> bool {
    exists|p: Seq<Seq<char>>| #[trigger] is_path(g, p) && p[0] == a && p.last() == b
}

/// No path of one or more edges leads from a name back to itself.
pub open spec fn acyclic(g: Graph) -> bool {
    forall|p: Seq<Seq<char>>| #[trigger] is_path(g, p) && p.len() >= 2 ==> p[0] != p.last()
}

/// Adding `name` with `deps` would close a cycle: some dependency already reaches `name`.
pub open spec fn closes_cycle(g: Graph, name: Seq<char>, deps: Seq<Seq<char>>) -> bool {
    exists|i: int| 0 <= i < deps.len() && reaches(g, #[trigger] deps[i], name)
}

/// A directed acyclic graph of packages keyed by name.
pub struct Dag {
    nodes: StringHashMap<Package>,
}

proof fn lemma_subpath(g: Graph, p: Seq<Seq<char>>, i: int, j: int)
    requires
        is_path(g, p),
        0 <= i < j <= p.len(),
    ensures
        is_path(g, p.subrange(i, j)),
{
    let q = p.subrange(i, j);
    assert forall|k: int| 0 <= k < q.len() - 1 implies g.contains_key(#[trigger] q[k]) && g[q[k]].contains(
        q[k + 1],
    ) by {
        assert(q[k] == p[i + k]);
        assert(q[k + 1] == p[i + k + 1]);
    }
}

proof fn lemma_concat_path(g: Graph, a: Seq<Seq<char>>, b: Seq<Seq<char>>)
    requires
        is_path(g, a),
        is_path(g, b),
        g.contains_key(a.last()),
        g[a.last()].contains(b[0]),
    ensures
        is_path(g, a + b),
{
    let c = a + b;
    assert forall|k: int| 0 <= k < c.len() - 1 implies g.contains_key(#[trigger] c[k]) && g[c[k]].contains(
        c[k + 1],
    ) by {
        if k < a.len() - 1 {
            assert(c[k] == a[k] && c[k + 1] == a[k + 1]);
        } else if k == a.len() - 1 {
            assert(c[k] == a.last() && c[k + 1] == b[0]);
        } else {
            assert(c[k] == b[k - a.len()] && c[k + 1] == b[k - a.len() + 1]);
        }
    }
}

/// In an acyclic graph a path never visits a name twice.
proof fn lemma_acyclic_path_distinct(g: Graph, p: Seq<Seq<char>>)
    requires
        acyclic(g),
        is_path(g, p),
    ensures
        p.no_duplicates(),
{
    assert forall|i: int, j: int| 0 <= i < p.len() && 0 <= j < p.len() && i != j implies p[i] != p[j] by {
        if p[i] == p[j] {
            let lo = if i < j { i } else { j };
            let hi = if i < j { j } else { i };
            lemma_subpath(g, p, lo, hi + 1);
            let q = p.subrange(lo, hi + 1);
            assert(q[0] == p[lo] && q.last() == p[hi]);
            assert(is_path(g, q) && q.len() >= 2);
        }
    }
}

/// A path in `g.insert(n, d)` that never leaves from `n` is a path in `g`.
proof fn lemma_path_avoiding_source(g: Graph, n: Seq<char>, d: Seq<Seq<char>>, p: Seq<Seq<char>>)
    requires
        !g.contains_key(n),
        is_path(g.insert(n, d), p),
        forall|i: int| 0 <= i < p.len() - 1 ==> p[i] != n,
    ensures
        is_path(g, p),
{
    let h = g.insert(n, d);
    assert forall|k: int| 0 <= k < p.len() - 1 implies g.contains_key(#[trigger] p[k]) && g[p[k]].contains(
        p[k + 1],
    ) by {
        assert(h.contains_key(p[k]) && h[p[k]].contains(p[k + 1]));
        assert(p[k] != n);
    }
}

/// The last position at or below `j` that holds `n`, given that position 0 does.
proof fn lemma_last_occurrence(p: Seq<Seq<char>>, n: Seq<char>, j: int) -> (k: int)
    requires
        0 <= j < p.len(),
        p[0] == n,
    ensures
        0 <= k <= j,
        p[k] == n,
        forall|i: int| k < i <= j ==> p[i] != n,
    decreases j,
{
    if p[j] == n {
        j
    } else {
        lemma_last_occurrence(p, n, j - 1)
    }
}

/// Inserting `n` with dependencies `d`, none of which reaches `n`, keeps an acyclic graph acyclic.
proof fn lemma_insert_keeps_acyclic(g: Graph, n: Seq<char>, d: Seq<Seq<char>>)
    requires
        acyclic(g),
        !g.contains_key(n),
        !closes_cycle(g, n, d),
    ensures
        acyclic(g.insert(n, d)),
{
    let h = g.insert(n, d);
    assert forall|p: Seq<Seq<char>>| #[trigger] is_path(h, p) && p.len() >= 2 implies p[0] != p.last() by {
        if p[0] == p.last() {
            if exists|i: int| 0 <= i < p.len() - 1 && p[i] == n {
                let i0 = choose|i: int| 0 <= i < p.len() - 1 && p[i] == n;
                // A cycle through `n`, rotated to start at `n`.
                let r = if i0 == 0 {
                    p
                } else {
                    lemma_subpath(h, p, i0, p.len() as int);
                    lemma_subpath(h, p, 1, i0 + 1);
                    let a = p.subrange(i0, p.len() as int);
                    let b = p.subrange(1, i0 + 1);
                    assert(a.last() == p[0]);
                    assert(h.contains_key(p[0]) && h[p[0]].contains(p[1]));
                    lemma_concat_path(h, a, b);
                    a + b
                };
                assert(is_path(h, r));
                assert(r.len() >= 2 && r[0] == n && r.last() == n);
                let k = lemma_last_occurrence(r, n, r.len() - 2);
                lemma_subpath(h, r, k + 1, r.len() as int);
                let q = r.subrange(k + 1, r.len() as int);
                assert(forall|i: int| 0 <= i < q.len() - 1 ==> q[i] == r[k + 1 + i]);
                lemma_path_avoiding_source(g, n, d, q);
                assert(h[n] == d);
                assert(d.contains(r[k + 1]));
                let di = choose|i: int| 0 <= i < d.len() && d[i] == r[k + 1];
                assert(is_path(g, q) && q[0] == d[di] && q.last() == n);
                assert(reaches(g, d[di], n));
            } else {
                lemma_path_avoiding_source(g, n, d, p);
            }
        }
    }
}

impl Dag {
    /// The graph: each package name mapped to the names it depends on.
    pub closed spec fn view(&self) -> Graph {
        self.nodes@.map_values(|p: Package| p.dep_names())
    }

    /// Keys name their packages, there are finitely many, and no cycle exists.
    pub closed spec fn wf(&self) -> bool {
        &&& self.nodes@.dom().finite()
        &&& forall|k: Seq<char>| #[trigger] self.nodes@.contains_key(k) ==> self.nodes@[k].name@ == k
        &&& acyclic(self.view())
    }

    /// A well-formed graph holds no cycle: whatever sequence of `add_package` calls
    /// built it from `new`, no package reaches itself through its dependencies.
    pub proof fn lemma_wf_acyclic(&self)
        requires
            self.wf(),
        ensures
            acyclic(self.view()),
    {
    }

    /// An empty graph.
    pub fn new() -> (d: Self)
        ensures
            d.wf(),
            acyclic(d.view()),
            d.view() == Map::<Seq<char>, Seq<Seq<char>>>::empty(),
    {
        let d = Dag { nodes: StringHashMap::new() };
        assert(d.view() =~= Map::<Seq<char>, Seq<Seq<char>>>::empty());
        d
    }

    /// Whether following dependency edges from `current` leads to `start`.
    /// `trail` is the path walked so far; its names are pairwise distinct, which bounds the depth.
    fn has_cyclic_dependency(&self, start: &String, current: &String, Ghost(trail): Ghost<Seq<Seq<char>>>) -> (r: bool)
        requires
            self.wf(),
            is_path(self.view(), trail.push(current@)),
        ensures
            r == reaches(self.view(), current@, start@),
        decreases self.nodes@.dom().len() - trail.len(),
    {
        let ghost g = self.view();
        if start.eq(current) {
            assert(is_path(g, seq![current@]));
            return true;
        }
        match self.nodes.get(current.as_str()) {
            None => {
                assert forall|p: Seq<Seq<char>>| #[trigger] is_path(g, p) && p[0] == current@ implies p.last() != start@ by {
                    if p.len() >= 2 {
                        assert(g.contains_key(p[0]));
                    }
                }
                false
            },
            Some(package) => {
                let ghost t2 = trail.push(current@);
                proof {
                    lemma_acyclic_path_distinct(g, t2);
                    assert forall|x: Seq<char>| t2.to_set().contains(x) implies self.nodes@.dom().contains(x) by {
                        let i = choose|i: int| 0 <= i < t2.len() && t2[i] == x;
                        if i < t2.len() - 1 {
                            assert(g.contains_key(t2[i]));
                        }
                    }
                    t2.unique_seq_to_set();
                    vstd::set_lib::lemma_len_subset(t2.to_set(), self.nodes@.dom());
                }
                let deps = &package.dependencies;
                assert(g[current@] == deps@.map_values(|d: String| d@));
                let mut i: usize = 0;
                while i < deps.len()
                    invariant
                        self.wf(),
                        g == self.view(),
                        start@ != current@,
                        is_path(g, t2),
                        t2 == trail.push(current@),
                        t2.len() <= self.nodes@.dom().len(),
                        g.contains_key(current@),
                        g[current@] == deps@.map_values(|d: String| d@),
                        0 <= i <= deps.len(),
                        forall|j: int| 0 <= j < i ==> !reaches(g, #[trigger] deps@[j]@, start@),
                    decreases deps.len() - i,
                {
                    proof {
                        assert(g[current@][i as int] == deps@[i as int]@);
                        lemma_concat_path(g, t2, seq![deps@[i as int]@]);
                        assert(t2 + seq![deps@[i as int]@] =~= t2.push(deps@[i as int]@));
                    }
                    if self.has_cyclic_dependency(start, &deps[i], Ghost(t2)) {
                        proof {
                            let q = choose|q: Seq<Seq<char>>| #[trigger] is_path(g, q) && q[0] == deps@[i as int]@ && q.last() == start@;
                            assert(is_path(g, seq![current@]));
                            lemma_concat_path(g, seq![current@], q);
                            let w = seq![current@] + q;
                            assert(w[0] == current@ && w.last() == start@);
                        }
                        return true;
                    }
                    i = i + 1;
                }
                assert forall|p: Seq<Seq<char>>| #[trigger] is_path(g, p) && p[0] == current@ implies p.last() != start@ by {
                    if p.len() >= 2 && p.last() == start@ {
                        assert(g[current@].contains(p[1]));
                        let k = choose|k: int| 0 <= k < g[current@].len() && g[current@][k] == p[1];
                        assert(deps@[k]@ == p[1]);
                        lemma_subpath(g, p, 1, p.len() as int);
                        let q = p.subrange(1, p.len() as int);
                        assert(q[0] == deps@[k]@ && q.last() == start@);
                    }
                }
                false
            },
        }
    }

    /// Adds a package. Fails when a package of that name exists, or when one of its
    /// dependencies already depends, directly or not, on the new package.
    pub fn add_package(&mut self, package: Package) -> (r: Result<(), &'static str>)
        requires
            old(self).wf(),
        ensures
            final(self).wf(),
            acyclic(final(self).view()),
            old(self).view().contains_key(package.name@) ==> (r matches Err(e) && e@
                == "Package already exists."@),
            !old(self).view().contains_key(package.name@) && closes_cycle(
                old(self).view(),
                package.name@,
                package.dep_names(),
            ) ==> (r matches Err(e) && e@ == "Cyclic dependency detected."@),
            !old(self).view().contains_key(package.name@) && !closes_cycle(
                old(self).view(),
                package.name@,
                package.dep_names(),
            ) ==> r is Ok,
            r is Ok ==> final(self).view() == old(self).view().insert(
                package.name@,
                package.dep_names(),
            ),
            r is Err ==> final(self).view() == old(self).view(),
    {
        if self.nodes.contains_key(package.name.as_str()) {
            return Err("Package already exists.");
        }
        let ghost g = self.view();
        let ghost deps = package.dep_names();
        assert(g.dom() =~= self.nodes@.dom());
        assert(!g.contains_key(package.name@));
        let mut i: usize = 0;
        while i < package.dependencies.len()
            invariant
                self.wf(),
                g == self.view(),
                g == old(self).view(),
                !g.contains_key(package.name@),
                deps == package.dep_names(),
                0 <= i <= package.dependencies.len(),
                forall|j: int| 0 <= j < i ==> !reaches(g, #[trigger] deps[j], package.name@),
            decreases package.dependencies.len() - i,
        {
            assert(is_path(g, Seq::<Seq<char>>::empty().push(package.dependencies@[i as int]@)));
            if self.has_cyclic_dependency(&package.name, &package.dependencies[i], Ghost(Seq::empty())) {
                assert(reaches(g, deps[i as int], package.name@));
                return Err("Cyclic dependency detected.");
            }
            i = i + 1;
        }
        proof {
            assert(!closes_cycle(g, package.name@, deps));
            lemma_insert_keeps_acyclic(g, package.name@, deps);
        }
        let ghost name = package.name@;
        let ghost pkg = package;
        let key = package.name.clone();
        self.nodes.insert(key, package);
        proof {
            assert(self.nodes@[name] == pkg);
            assert(self.view() =~= g.insert(name, deps));
        }
        Ok(())
    }
}

} // verus!
