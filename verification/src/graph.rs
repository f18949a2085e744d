//! The build graph: an arena of packages in dependency order.

use vstd::prelude::*;
use crate::package::{
    compute_hash, name_defect, package_hash, valid_name, validate_package_name, Package,
    PackageView,
};

verus! {

/// The packages of one or more manifests. A package names its dependencies
/// by their index here.
#[derive(Debug)]
pub struct PackageGraph {
    pub nodes: Vec<Package>,
}

/// The values of a list of packages.
pub open spec fn nodes_view(v: Seq<Package>) -> Seq<PackageView> {
    Seq::new(v.len(), |i: int| v[i]@)
}

/// The hashes of the packages that `deps` names.
pub open spec fn dep_hashes(nodes: Seq<PackageView>, deps: Seq<usize>) -> Seq<Seq<char>> {
    Seq::new(deps.len(), |k: int| nodes[deps[k] as int].hash)
}

/// Every index of `deps` is below `bound`.
pub open spec fn all_below(deps: Seq<usize>, bound: int) -> bool {
    forall|k: int| 0 <= k < deps.len() ==> (#[trigger] deps[k]) < bound
}

/// Package `i` depends only on earlier packages, carries the hash of what
/// it is made of, and has a valid name if it has one.
pub open spec fn node_wf(nodes: Seq<PackageView>, i: int) -> bool {
    let p = nodes[i];
    &&& all_below(p.run_deps, i)
    &&& all_below(p.build_deps, i)
    &&& p.hash == package_hash(
        p.build,
        p.fetch,
        dep_hashes(nodes, p.run_deps),
        dep_hashes(nodes, p.build_deps),
    )
    &&& match p.name {
        Some(n) => valid_name(n),
        None => true,
    }
}

/// Every package is well formed and no hash occurs twice.
pub open spec fn graph_wf(nodes: Seq<PackageView>) -> bool {
    &&& forall|i: int| 0 <= i < nodes.len() ==> #[trigger] node_wf(nodes, i)
    &&& forall|i: int, j: int|
        0 <= i < j < nodes.len() ==> (#[trigger] nodes[i]).hash != (#[trigger] nodes[j]).hash
}

/// `a` is the beginning of `b`.
pub open spec fn extends<A>(a: Seq<A>, b: Seq<A>) -> bool {
    a.len() <= b.len() && forall|i: int| 0 <= i < a.len() ==> a[i] == b[i]
}

/// The index of the first package at or after `from` with the hash `hash`.
pub open spec fn find_hash_spec(nodes: Seq<PackageView>, hash: Seq<char>, from: int) -> Option<
    usize,
>
    decreases nodes.len() - from,
{
    if from < 0 || from >= nodes.len() {
        None
    } else if nodes[from].hash == hash {
        Some(from as usize)
    } else {
        find_hash_spec(nodes, hash, from + 1)
    }
}

/// What a search by hash finds has that hash; where it finds nothing, no package has it.
pub proof fn lemma_find_hash(nodes: Seq<PackageView>, hash: Seq<char>, from: int)
    requires
        0 <= from,
        nodes.len() <= usize::MAX,
    ensures
        match find_hash_spec(nodes, hash, from) {
            Some(k) => from <= k < nodes.len() && nodes[k as int].hash == hash,
            None => forall|i: int| from <= i < nodes.len() ==> (#[trigger] nodes[i]).hash != hash,
        },
    decreases nodes.len() - from,
{
    if from < nodes.len() && nodes[from].hash != hash {
        lemma_find_hash(nodes, hash, from + 1);
    }
}

/// A name without defect is valid.
pub proof fn lemma_no_defect_is_valid(name: Seq<char>)
    ensures
        name_defect(name) is None <==> valid_name(name),
{
}

/// A well-formed graph stays well formed when a well-formed package with a new hash is appended.
pub proof fn lemma_push_keeps_wf(nodes: Seq<PackageView>, p: PackageView)
    requires
        graph_wf(nodes),
        all_below(p.run_deps, nodes.len() as int),
        all_below(p.build_deps, nodes.len() as int),
        p.hash == package_hash(
            p.build,
            p.fetch,
            dep_hashes(nodes, p.run_deps),
            dep_hashes(nodes, p.build_deps),
        ),
        match p.name {
            Some(n) => valid_name(n),
            None => true,
        },
        forall|i: int| 0 <= i < nodes.len() ==> (#[trigger] nodes[i]).hash != p.hash,
    ensures
        graph_wf(nodes.push(p)),
{
    let grown = nodes.push(p);
    assert forall|i: int| 0 <= i < grown.len() implies #[trigger] node_wf(grown, i) by {
        let q = grown[i];
        if i < nodes.len() {
            assert(node_wf(nodes, i));
            assert(q == nodes[i]);
        }
        assert(dep_hashes(grown, q.run_deps) =~= dep_hashes(nodes, q.run_deps));
        assert(dep_hashes(grown, q.build_deps) =~= dep_hashes(nodes, q.build_deps));
    }
    assert forall|i: int, j: int| 0 <= i < j < grown.len() implies (#[trigger] grown[i]).hash != (
    #[trigger] grown[j]).hash by {
        if j < nodes.len() {
            assert(grown[i] == nodes[i] && grown[j] == nodes[j]);
        } else {
            assert(grown[i] == nodes[i]);
        }
    }
}

impl View for PackageGraph {
    type V = Seq<PackageView>;

    open spec fn view(&self) -> Seq<PackageView> {
        nodes_view(self.nodes@)
    }
}

impl PackageGraph {
    /// The graph's invariant: dependencies stand before their dependents,
    /// every hash is the hash of the package's content, no hash occurs twice.
    pub open spec fn wf(&self) -> bool {
        graph_wf(self@)
    }

    /// A graph without packages.
    pub fn new() -> (g: PackageGraph)
        ensures
            g.wf(),
            g@.len() == 0,
    {
        PackageGraph { nodes: Vec::new() }
    }

    /// The number of packages.
    pub fn len(&self) -> (n: usize)
        ensures
            n == self@.len(),
    {
        self.nodes.len()
    }

    /// The index of the package with the hash `hash`.
    pub fn find_hash(&self, hash: &String) -> (r: Option<usize>)
        ensures
            r == find_hash_spec(self@, hash@, 0),
            match r {
                Some(k) => k < self@.len() && self@[k as int].hash == hash@,
                None => forall|i: int| 0 <= i < self@.len() ==> (#[trigger] self@[i]).hash != hash@,
            },
    {
        let n: usize = self.nodes.len();
        proof {
            assert(self@.len() == n);
            lemma_find_hash(self@, hash@, 0);
        }
        let mut i: usize = 0;
        while i < self.nodes.len()
            invariant
                i <= self.nodes@.len(),
                find_hash_spec(self@, hash@, 0) == find_hash_spec(self@, hash@, i as int),
            decreases self.nodes@.len() - i,
        {
            if self.nodes[i].hash == *hash {
                return Some(i);
            }
            i = i + 1;
        }
        None
    }

    /// The hashes of the packages that `deps` names.
    pub fn hashes_of(&self, deps: &Vec<usize>) -> (out: Vec<String>)
        requires
            all_below(deps@, self@.len() as int),
        ensures
            crate::package::strings_view(out@) == dep_hashes(self@, deps@),
    {
        let mut out: Vec<String> = Vec::new();
        let mut k: usize = 0;
        while k < deps.len()
            invariant
                k <= deps@.len(),
                all_below(deps@, self@.len() as int),
                out@.len() == k,
                forall|j: int| 0 <= j < k ==> out@[j]@ == self@[deps@[j] as int].hash,
            decreases deps@.len() - k,
        {
            out.push(self.nodes[deps[k]].hash.clone());
            k = k + 1;
        }
        assert(crate::package::strings_view(out@) =~= dep_hashes(self@, deps@));
        out
    }
}

fn deps_below(deps: &Vec<usize>, bound: usize) -> (ok: bool)
    ensures
        ok == all_below(deps@, bound as int),
{
    let mut k: usize = 0;
    while k < deps.len()
        invariant
            k <= deps@.len(),
            forall|j: int| 0 <= j < k ==> (#[trigger] deps@[j]) < bound,
        decreases deps@.len() - k,
    {
        if deps[k] >= bound {
            return false;
        }
        k = k + 1;
    }
    true
}

impl PackageGraph {
    /// Whether package `i` is well formed and its hash differs from those before it.
    #[verifier::loop_isolation(false)]
    fn node_ok(&self, i: usize) -> (ok: bool)
        requires
            i < self@.len(),
        ensures
            ok == (node_wf(self@, i as int) && forall|j: int|
                0 <= j < i ==> (#[trigger] self@[j]).hash != self@[i as int].hash),
    {
        let p = &self.nodes[i];
        if !deps_below(&p.run_deps, i) || !deps_below(&p.build_deps, i) {
            return false;
        }
        match &p.name {
            Some(name) => {
                if validate_package_name(name.as_str(), "name").is_err() {
                    return false;
                }
            },
            None => {},
        }
        let run_hashes = self.hashes_of(&p.run_deps);
        let build_hashes = self.hashes_of(&p.build_deps);
        let hash = compute_hash(p.build.as_str(), &p.fetch, &run_hashes, &build_hashes);
        if hash != p.hash {
            return false;
        }
        let mut j: usize = 0;
        while j < i
            invariant
                j <= i < self@.len(),
                node_wf(self@, i as int),
                forall|k: int| 0 <= k < j ==> (#[trigger] self@[k]).hash != self@[i as int].hash,
            decreases i - j,
        {
            assert(self@[j as int].hash == self.nodes@[j as int].hash@);
            if self.nodes[j].hash == p.hash {
                return false;
            }
            j = j + 1;
        }
        true
    }

    /// Whether the graph keeps its invariant.
    pub fn well_formed(&self) -> (ok: bool)
        ensures
            ok == self.wf(),
    {
        let mut i: usize = 0;
        while i < self.nodes.len()
            invariant
                i <= self@.len(),
                self@.len() == self.nodes@.len(),
                forall|a: int| 0 <= a < i ==> #[trigger] node_wf(self@, a),
                forall|a: int, b: int|
                    0 <= a < b < i ==> (#[trigger] self@[a]).hash != (#[trigger] self@[b]).hash,
            decreases self@.len() - i,
        {
            if !self.node_ok(i) {
                proof {
                    if graph_wf(self@) {
                        assert(node_wf(self@, i as int));
                        assert forall|j: int| 0 <= j < i implies (#[trigger] self@[j]).hash
                            != self@[i as int].hash by {}
                    }
                }
                return false;
            }
            i = i + 1;
        }
        true
    }
}

} // verus!
