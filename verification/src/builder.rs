//! Turning a manifest into packages of the build graph.
//!
//! The builder walks the manifest from its roots. For each package object
//! it reads the name, builds the run-time dependencies, then the build-time
//! dependencies, reads the script and the fetch list, and hashes the lot. A
//! package whose hash the graph already holds is not added again. Two
//! caches make this cheap: one by object identity, one by hash (the graph
//! itself). An object met again while it is still being built closes a
//! cycle.
//!
//! The spec functions below are the builder's meaning: they thread the
//! graph and the identity cache through the walk and give the first
//! diagnostic in walking order.

use vstd::prelude::*;
use crate::error::{MagError, MagErrorView};
use crate::graph::{
    all_below, dep_hashes, extends, find_hash_spec, lemma_no_defect_is_valid, lemma_push_keeps_wf,
    PackageGraph,
};
use crate::manifest::{
    defect, defect_at, field_path, field_path_of, get_field, get_field_spec, item_path,
    item_path_of, lookup_spec, root_path, shape_defect, shape_defect_at, Field, Manifest,
    ManifestValue, Slot,
};
use crate::package::{compute_hash, package_hash, FetchResourceView, Package, PackageView};
use crate::reader::{
    lemma_field_value_ok, read_build_script, read_build_spec, read_fetch_list, read_fetch_spec,
    read_name_spec, read_package_name,
};

verus! {

/// What the builder knows in the middle of a walk.
pub struct BuildState {
    /// The packages built so far.
    pub nodes: Seq<PackageView>,
    /// For each object of the manifest, the package it was built into.
    pub cache: Seq<Option<usize>>,
}

/// The outcome of building one package.
pub type BuildOutcome = (BuildState, Result<usize, MagErrorView>);

/// The outcome of building a list of packages.
pub type ListOutcome = (BuildState, Result<Seq<usize>, MagErrorView>);

/// The diagnostic for a value at `at` that should have been a package object.
pub open spec fn not_an_object(at: Seq<char>) -> MagErrorView {
    defect(at, "package definitions must be Jsonnet objects"@)
}

/// Builds the object `obj`, met along `path` at the place `at` of the manifest.
pub open spec fn build_object_spec(
    m: &Manifest,
    st: BuildState,
    obj: usize,
    path: Seq<usize>,
    at: Seq<char>,
) -> BuildOutcome
    decreases m.objects@.len() - path.len(), 0int, 0int,
{
    if st.cache[obj as int] is Some {
        (st, Ok(st.cache[obj as int]->0))
    } else if path.contains(obj) {
        (st, Err(MagErrorView::DependencyCycle))
    } else if path.len() >= m.objects@.len() {
        // a path without repetition is never this long
        (st, Err(MagErrorView::DependencyCycle))
    } else {
        build_fresh_spec(m, st, obj, path.push(obj), at)
    }
}

/// Builds the object `obj`, the last of `path`, which no cache holds.
pub open spec fn build_fresh_spec(
    m: &Manifest,
    st: BuildState,
    obj: usize,
    path: Seq<usize>,
    at: Seq<char>,
) -> BuildOutcome
    decreases m.objects@.len() - path.len(), 3int, 0int,
{
    let fields = m.objects@[obj as int]@;
    match read_name_spec(fields, at) {
        Err(e) => (st, Err(e)),
        Ok(name) => {
            let (st1, run) = deps_spec(m, st, fields, "runDeps"@, path, at);
            match run {
                Err(e) => (st1, Err(e)),
                Ok(run_deps) => {
                    let (st2, bld) = deps_spec(m, st1, fields, "buildDeps"@, path, at);
                    match bld {
                        Err(e) => (st2, Err(e)),
                        Ok(build_deps) => match read_build_spec(fields, at) {
                            Err(e) => (st2, Err(e)),
                            Ok(build) => match read_fetch_spec(m, fields, at) {
                                Err(e) => (st2, Err(e)),
                                Ok(fetch) => register_spec(
                                    st2,
                                    obj,
                                    name,
                                    build,
                                    fetch,
                                    run_deps,
                                    build_deps,
                                ),
                            },
                        },
                    }
                },
            }
        },
    }
}

/// Enters a freshly read package: the one of the same hash that the graph
/// holds already, or else a new one at the end of the graph.
pub open spec fn register_spec(
    st: BuildState,
    obj: usize,
    name: Option<Seq<char>>,
    build: Seq<char>,
    fetch: Seq<FetchResourceView>,
    run_deps: Seq<usize>,
    build_deps: Seq<usize>,
) -> BuildOutcome {
    let hash = package_hash(
        build,
        fetch,
        dep_hashes(st.nodes, run_deps),
        dep_hashes(st.nodes, build_deps),
    );
    match find_hash_spec(st.nodes, hash, 0) {
        Some(idx) => (
            BuildState { nodes: st.nodes, cache: st.cache.update(obj as int, Some(idx)) },
            Ok(idx),
        ),
        None => {
            let idx = st.nodes.len() as usize;
            let package = PackageView { name, build, hash, run_deps, build_deps, fetch };
            (
                BuildState {
                    nodes: st.nodes.push(package),
                    cache: st.cache.update(obj as int, Some(idx)),
                },
                Ok(idx),
            )
        },
    }
}

/// Builds the packages that the field `field` of the object at `at` lists.
pub open spec fn deps_spec(
    m: &Manifest,
    st: BuildState,
    fields: Seq<Field>,
    field: Seq<char>,
    path: Seq<usize>,
    at: Seq<char>,
) -> ListOutcome
    decreases m.objects@.len() - path.len(), 2int, 0int,
{
    match get_field_spec(fields, field, at) {
        Err(e) => (st, Err(e)),
        Ok(None) => (st, Ok(Seq::empty())),
        Ok(Some(ManifestValue::Null)) => (st, Ok(Seq::empty())),
        Ok(Some(ManifestValue::Arr(a))) => collect_spec(
            m,
            st,
            m.arrays@[a as int]@,
            path,
            field_path(at, field),
            m.arrays@[a as int]@.len() as int,
        ),
        Ok(Some(other)) => (
            st,
            Err(shape_defect(field_path(at, field), "expected an array of packages"@, other)),
        ),
    }
}

/// Builds the first `n` packages of the dependency list at `at`, in order.
pub open spec fn collect_spec(
    m: &Manifest,
    st: BuildState,
    items: Seq<Slot>,
    path: Seq<usize>,
    at: Seq<char>,
    n: int,
) -> ListOutcome
    decreases m.objects@.len() - path.len(), 1int, n,
{
    if n <= 0 {
        (st, Ok(Seq::empty()))
    } else {
        let (st1, front) = collect_spec(m, st, items, path, at, n - 1);
        match front {
            Err(e) => (st1, Err(e)),
            Ok(acc) => match items[n - 1] {
                Slot::Failed(message) => (st1, Err(defect(item_path(at, n - 1), message@))),
                Slot::Value(ManifestValue::Obj(o)) => {
                    let (st2, r) = build_object_spec(m, st1, o, path, item_path(at, n - 1));
                    match r {
                        Err(e) => (st2, Err(e)),
                        Ok(idx) => (st2, Ok(acc.push(idx))),
                    }
                },
                Slot::Value(_) => (st1, Err(not_an_object(item_path(at, n - 1)))),
            },
        }
    }
}

/// Builds the first `n` root packages of a manifest that is an array.
pub open spec fn root_items_spec(m: &Manifest, st: BuildState, items: Seq<Slot>, n: int) -> ListOutcome
    decreases n,
{
    if n <= 0 {
        (st, Ok(Seq::empty()))
    } else {
        let (st1, front) = root_items_spec(m, st, items, n - 1);
        let here = item_path(root_path(), n - 1);
        match front {
            Err(e) => (st1, Err(e)),
            Ok(acc) => match items[n - 1] {
                Slot::Failed(message) => (st1, Err(defect(here, message@))),
                Slot::Value(ManifestValue::Obj(o)) => {
                    let (st2, r) = build_object_spec(m, st1, o, Seq::empty(), here);
                    match r {
                        Err(e) => (st2, Err(e)),
                        Ok(idx) => (st2, Ok(acc.push(idx))),
                    }
                },
                Slot::Value(_) => (st1, Err(not_an_object(here))),
            },
        }
    }
}

/// Builds the root packages of a manifest: those of an array in order, or the one object.
pub open spec fn roots_spec(m: &Manifest, st: BuildState, root: ManifestValue) -> ListOutcome {
    match root {
        ManifestValue::Arr(a) => root_items_spec(
            m,
            st,
            m.arrays@[a as int]@,
            m.arrays@[a as int]@.len() as int,
        ),
        ManifestValue::Obj(o) => {
            let (st1, r) = build_object_spec(m, st, o, Seq::empty(), root_path());
            match r {
                Err(e) => (st1, Err(e)),
                Ok(idx) => (st1, Ok(seq![idx])),
            }
        },
        _ => (st, Err(not_an_object(root_path()))),
    }
}

/// The state in which a walk starts: the packages there are, and no object built.
pub open spec fn start_state(m: &Manifest, nodes: Seq<PackageView>) -> BuildState {
    BuildState { nodes, cache: Seq::new(m.objects@.len(), |i: int| None::<usize>) }
}

/// The value of an outcome with one package.
pub open spec fn one_view(r: Result<usize, MagError>) -> Result<usize, MagErrorView> {
    match r {
        Ok(i) => Ok(i),
        Err(e) => Err(e@),
    }
}

/// The value of an outcome with a list of packages.
pub open spec fn list_view(r: Result<Vec<usize>, MagError>) -> Result<Seq<usize>, MagErrorView> {
    match r {
        Ok(v) => Ok(v@),
        Err(e) => Err(e@),
    }
}

/// A path names objects of the manifest, none of them twice.
pub open spec fn path_ok(m: &Manifest, path: Seq<usize>) -> bool {
    path.no_duplicates() && all_below(path, m.objects@.len() as int)
}

/// A sequence of different numbers below `n` has at most `n` items.
pub proof fn lemma_path_bound(path: Seq<usize>, n: nat)
    requires
        path.no_duplicates(),
        all_below(path, n as int),
    ensures
        path.len() <= n,
    decreases n,
{
    if path.len() > 0 {
        if n == 0 {
            assert(path[0] < 0);
        } else {
            let top = (n - 1) as usize;
            if exists|i: int| 0 <= i < path.len() && path[i] == top {
                let i = choose|i: int| 0 <= i < path.len() && path[i] == top;
                let rest = path.remove(i);
                assert forall|a: int, b: int|
                    0 <= a < rest.len() && 0 <= b < rest.len() && a != b implies rest[a]
                    != rest[b] by {
                    let a2 = if a < i { a } else { a + 1 };
                    let b2 = if b < i { b } else { b + 1 };
                    assert(rest[a] == path[a2] && rest[b] == path[b2]);
                }
                assert forall|k: int| 0 <= k < rest.len() implies (#[trigger] rest[k]) < n
                    - 1 by {
                    let k2 = if k < i { k } else { k + 1 };
                    assert(rest[k] == path[k2]);
                    assert(path[k2] < n);
                    assert(k2 != i);
                }
                lemma_path_bound(rest, (n - 1) as nat);
            } else {
                assert forall|k: int| 0 <= k < path.len() implies (#[trigger] path[k]) < n
                    - 1 by {
                    assert(path[k] < n);
                }
                lemma_path_bound(path, (n - 1) as nat);
            }
        }
    }
}

/// Once a prefix of a dependency list has failed, the whole list fails the same way.
pub proof fn lemma_collect_err_stays(
    m: &Manifest,
    st: BuildState,
    items: Seq<Slot>,
    path: Seq<usize>,
    at: Seq<char>,
    n: int,
    total: int,
)
    requires
        0 <= n <= total,
        collect_spec(m, st, items, path, at, n).1 is Err,
    ensures
        collect_spec(m, st, items, path, at, total) == collect_spec(m, st, items, path, at, n),
    decreases total - n,
{
    if n < total {
        lemma_collect_err_stays(m, st, items, path, at, n, total - 1);
    }
}

/// Once a prefix of the root list has failed, the whole list fails the same way.
pub proof fn lemma_root_items_err_stays(
    m: &Manifest,
    st: BuildState,
    items: Seq<Slot>,
    n: int,
    total: int,
)
    requires
        0 <= n <= total,
        root_items_spec(m, st, items, n).1 is Err,
    ensures
        root_items_spec(m, st, items, total) == root_items_spec(m, st, items, n),
    decreases total - n,
{
    if n < total {
        lemma_root_items_err_stays(m, st, items, n, total - 1);
    }
}

/// Builds packages out of manifests and keeps the graph they form.
#[derive(Debug)]
pub struct PackageGraphBuilder {
    /// The packages built so far.
    pub graph: PackageGraph,
    /// For each object of the manifest at hand, the package it was built into.
    pub cache: Vec<Option<usize>>,
}

impl PackageGraphBuilder {
    /// What the builder knows.
    pub open spec fn state(&self) -> BuildState {
        BuildState { nodes: self.graph@, cache: self.cache@ }
    }

    /// The builder's invariant during a walk over `m`.
    pub open spec fn inv(&self, m: &Manifest) -> bool {
        &&& self.graph.wf()
        &&& self.cache@.len() == m.objects@.len()
        &&& forall|o: int|
            0 <= o < self.cache@.len() ==> match #[trigger] self.cache@[o] {
                Some(idx) => idx < self.graph@.len(),
                None => true,
            }
    }

    /// A builder with an empty graph.
    pub fn new() -> (b: PackageGraphBuilder)
        ensures
            b.graph.wf(),
            b.graph@.len() == 0,
    {
        PackageGraphBuilder { graph: PackageGraph::new(), cache: Vec::new() }
    }

    /// Builds the root packages of the manifest `m`, whose value is `root`:
    /// the packages of an array in order, or the one package object.
    ///
    /// The packages found join the graph behind those it held before; the
    /// result names them by index. The walk stops at the first defect.
    #[verifier::loop_isolation(false)]
    pub fn packages_from_value(&mut self, m: &Manifest, root: &ManifestValue) -> (r: Result<
        Vec<usize>,
        MagError,
    >)
        requires
            m.wf(),
            m.slot_ok(Slot::Value(*root)),
            old(self).graph.wf(),
        ensures
            final(self).graph.wf(),
            extends(old(self).graph@, final(self).graph@),
            roots_spec(m, start_state(m, old(self).graph@), *root) == (
                final(self).state(),
                list_view(r),
            ),
            match r {
                Ok(v) => all_below(v@, final(self).graph@.len() as int),
                Err(_) => true,
            },
    {
        self.reset_cache(m);
        match root {
            ManifestValue::Arr(a) => {
                let items = &m.arrays[*a];
                let ghost st0 = self.state();
                let mut out: Vec<usize> = Vec::new();
                let mut i: usize = 0;
                while i < items.len()
                    invariant
                        m.wf(),
                        *a < m.arrays@.len(),
                        items == m.arrays@[*a as int],
                        i <= items@.len(),
                        self.inv(m),
                        extends(st0.nodes, self.graph@),
                        root_items_spec(m, st0, items@, i as int) == (
                            self.state(),
                            Ok::<_, MagErrorView>(out@),
                        ),
                        all_below(out@, self.graph@.len() as int),
                    decreases items@.len() - i,
                {
                    let ghost acc = out@;
                    let here = item_path_of("$", i);
                    proof {
                        if root_items_spec(m, st0, items@, i + 1).1 is Err {
                            lemma_root_items_err_stays(m, st0, items@, i + 1, items@.len() as int);
                        }
                    }
                    match &items[i] {
                        Slot::Failed(message) => {
                            return Err(defect_at(here, message.as_str()));
                        },
                        Slot::Value(ManifestValue::Obj(o)) => {
                            let mut path: Vec<usize> = Vec::new();
                            match self.build_object(m, *o, &mut path, here.as_str()) {
                                Err(e) => {
                                    return Err(e);
                                },
                                Ok(idx) => {
                                    out.push(idx);
                                    assert(out@ == acc.push(idx));
                                },
                            }
                        },
                        Slot::Value(_) => {
                            return Err(
                                defect_at(here, "package definitions must be Jsonnet objects"),
                            );
                        },
                    }
                    i = i + 1;
                }
                Ok(out)
            },
            ManifestValue::Obj(o) => {
                let mut path: Vec<usize> = Vec::new();
                match self.build_object(m, *o, &mut path, "$") {
                    Err(e) => Err(e),
                    Ok(idx) => {
                        let mut out: Vec<usize> = Vec::new();
                        out.push(idx);
                        assert(out@ =~= seq![idx]);
                        Ok(out)
                    },
                }
            },
            _ => Err(
                defect_at(String::from_str("$"), "package definitions must be Jsonnet objects"),
            ),
        }
    }

    /// Forgets which object was built into which package.
    fn reset_cache(&mut self, m: &Manifest)
        requires
            old(self).graph.wf(),
        ensures
            final(self).graph == old(self).graph,
            final(self).inv(m),
            final(self).state() == start_state(m, old(self).graph@),
    {
        let mut cache: Vec<Option<usize>> = Vec::new();
        let mut i: usize = 0;
        while i < m.objects.len()
            invariant
                i <= m.objects@.len(),
                cache@.len() == i,
                forall|k: int| 0 <= k < i ==> cache@[k] == None::<usize>,
            decreases m.objects@.len() - i,
        {
            cache.push(None);
            i = i + 1;
        }
        self.cache = cache;
        assert(self.cache@ =~= start_state(m, old(self).graph@).cache);
    }

    /// Builds the object `obj`, met along `path` at the place `at`.
    #[verifier::loop_isolation(false)]
    fn build_object(
        &mut self,
        m: &Manifest,
        obj: usize,
        path: &mut Vec<usize>,
        at: &str,
    ) -> (r: Result<usize, MagError>)
        requires
            m.wf(),
            obj < m.objects@.len(),
            old(self).inv(m),
            path_ok(m, old(path)@),
        ensures
            final(self).inv(m),
            final(path)@ == old(path)@,
            extends(old(self).graph@, final(self).graph@),
            build_object_spec(m, old(self).state(), obj, old(path)@, at@) == (
                final(self).state(),
                one_view(r),
            ),
            match r {
                Ok(idx) => idx < final(self).graph@.len(),
                Err(_) => true,
            },
        decreases m.objects@.len() - old(path)@.len(), 0int, 0int,
    {
        match self.cache[obj] {
            Some(idx) => {
                return Ok(idx);
            },
            None => {},
        }
        let mut k: usize = 0;
        while k < path.len()
            invariant
                k <= path@.len(),
                path@ == old(path)@,
                forall|j: int| 0 <= j < k ==> path@[j] != obj,
            decreases path@.len() - k,
        {
            if path[k] == obj {
                return Err(MagError::DependencyCycle);
            }
            k = k + 1;
        }
        assert(!path@.contains(obj));
        let ghost entered = path@.push(obj);
        proof {
            assert(entered.no_duplicates()) by {
                assert forall|a: int, b: int|
                    0 <= a < entered.len() && 0 <= b < entered.len() && a != b implies entered[a]
                    != entered[b] by {
                    if a < path@.len() && b < path@.len() {
                        assert(path@[a] != path@[b]);
                    }
                }
            }
            assert(all_below(entered, m.objects@.len() as int));
            lemma_path_bound(entered, m.objects@.len());
        }
        path.push(obj);
        let r = self.build_fresh(m, obj, path, at);
        path.pop();
        assert(path@ =~= old(path)@);
        r
    }

    /// Builds the object `obj`, the last of `path`, which no cache holds.
    fn build_fresh(
        &mut self,
        m: &Manifest,
        obj: usize,
        path: &mut Vec<usize>,
        at: &str,
    ) -> (r: Result<usize, MagError>)
        requires
            m.wf(),
            obj < m.objects@.len(),
            old(self).inv(m),
            path_ok(m, old(path)@),
        ensures
            final(self).inv(m),
            final(path)@ == old(path)@,
            extends(old(self).graph@, final(self).graph@),
            build_fresh_spec(m, old(self).state(), obj, old(path)@, at@) == (
                final(self).state(),
                one_view(r),
            ),
            match r {
                Ok(idx) => idx < final(self).graph@.len(),
                Err(_) => true,
            },
        decreases m.objects@.len() - old(path)@.len(), 3int, 0int,
    {
        let fields = &m.objects[obj];
        let name = match read_package_name(fields, at) {
            Err(e) => {
                return Err(e);
            },
            Ok(n) => n,
        };
        let ghost name_view: Option<Seq<char>> = match &name {
            Some(n) => Some(n@),
            None => None,
        };
        let run_deps = match self.collect_dependencies(m, fields, "runDeps", path, at) {
            Err(e) => {
                return Err(e);
            },
            Ok(v) => v,
        };
        let build_deps = match self.collect_dependencies(m, fields, "buildDeps", path, at) {
            Err(e) => {
                return Err(e);
            },
            Ok(v) => v,
        };
        let build = match read_build_script(fields, at) {
            Err(e) => {
                return Err(e);
            },
            Ok(s) => s,
        };
        let fetch = match read_fetch_list(m, fields, at) {
            Err(e) => {
                return Err(e);
            },
            Ok(f) => f,
        };
        let run_hashes = self.graph.hashes_of(&run_deps);
        let build_hashes = self.graph.hashes_of(&build_deps);
        let hash = compute_hash(build.as_str(), &fetch, &run_hashes, &build_hashes);
        match self.graph.find_hash(&hash) {
            Some(idx) => {
                self.cache.set(obj, Some(idx));
                Ok(idx)
            },
            None => {
                let idx = self.graph.nodes.len();
                let ghost before = self.graph@;
                let package = Package { name, build, hash, run_deps, build_deps, fetch };
                proof {
                    match name_view {
                        Some(n) => {
                            lemma_no_defect_is_valid(n);
                        },
                        None => {},
                    }
                    lemma_push_keeps_wf(before, package@);
                }
                self.graph.nodes.push(package);
                assert(self.graph@ =~= before.push(package@));
                self.cache.set(obj, Some(idx));
                Ok(idx)
            },
        }
    }

    /// Builds the packages that the field `field` of the object at `at` lists.
    #[verifier::loop_isolation(false)]
    fn collect_dependencies(
        &mut self,
        m: &Manifest,
        fields: &Vec<Field>,
        field: &str,
        path: &mut Vec<usize>,
        at: &str,
    ) -> (r: Result<Vec<usize>, MagError>)
        requires
            m.wf(),
            old(self).inv(m),
            path_ok(m, old(path)@),
            forall|k: int| 0 <= k < fields@.len() ==> m.slot_ok((#[trigger] fields@[k]).slot),
        ensures
            final(self).inv(m),
            final(path)@ == old(path)@,
            extends(old(self).graph@, final(self).graph@),
            deps_spec(m, old(self).state(), fields@, field@, old(path)@, at@) == (
                final(self).state(),
                list_view(r),
            ),
            match r {
                Ok(v) => all_below(v@, final(self).graph@.len() as int),
                Err(_) => true,
            },
        decreases m.objects@.len() - old(path)@.len(), 2int, 0int,
    {
        match get_field(fields, field, at) {
            Err(e) => Err(e),
            Ok(None) => Ok(Vec::new()),
            Ok(Some(ManifestValue::Null)) => Ok(Vec::new()),
            Ok(Some(ManifestValue::Arr(a))) => {
                proof {
                    lemma_field_value_ok(m, fields@, field@);
                }
                let items = &m.arrays[*a];
                let list_at = field_path_of(at, field);
                let ghost st0 = self.state();
                let mut out: Vec<usize> = Vec::new();
                let mut i: usize = 0;
                while i < items.len()
                    invariant
                        m.wf(),
                        *a < m.arrays@.len(),
                        items == m.arrays@[*a as int],
                        i <= items@.len(),
                        self.inv(m),
                        path@ == old(path)@,
                        path_ok(m, path@),
                        extends(st0.nodes, self.graph@),
                        collect_spec(m, st0, items@, path@, list_at@, i as int) == (
                            self.state(),
                            Ok::<_, MagErrorView>(out@),
                        ),
                        all_below(out@, self.graph@.len() as int),
                    decreases items@.len() - i,
                {
                    let ghost acc = out@;
                    let here = item_path_of(list_at.as_str(), i);
                    proof {
                        if collect_spec(m, st0, items@, path@, list_at@, i + 1).1 is Err {
                            lemma_collect_err_stays(
                                m,
                                st0,
                                items@,
                                path@,
                                list_at@,
                                i + 1,
                                items@.len() as int,
                            );
                        }
                    }
                    match &items[i] {
                        Slot::Failed(message) => {
                            return Err(defect_at(here, message.as_str()));
                        },
                        Slot::Value(ManifestValue::Obj(o)) => {
                            match self.build_object(m, *o, path, here.as_str()) {
                                Err(e) => {
                                    return Err(e);
                                },
                                Ok(idx) => {
                                    out.push(idx);
                                    assert(out@ == acc.push(idx));
                                },
                            }
                        },
                        Slot::Value(_) => {
                            return Err(
                                defect_at(here, "package definitions must be Jsonnet objects"),
                            );
                        },
                    }
                    i = i + 1;
                }
                Ok(out)
            },
            Ok(Some(other)) => Err(
                shape_defect_at(field_path_of(at, field), "expected an array of packages", other),
            ),
        }
    }
}

/// The items of the dependency list `field` among `fields`.
pub open spec fn items_of(m: &Manifest, fields: Seq<Field>, field: Seq<char>) -> Seq<Slot> {
    match lookup_spec(fields, field) {
        Some(Slot::Value(ManifestValue::Arr(x))) => m.arrays@[x as int]@,
        _ => Seq::empty(),
    }
}

/// The object that stands first in the run-time dependencies of `obj`.
pub open spec fn first_run_dep(m: &Manifest, obj: usize) -> Option<usize> {
    let items = items_of(m, m.objects@[obj as int]@, "runDeps"@);
    if items.len() > 0 {
        match items[0] {
            Slot::Value(ManifestValue::Obj(o)) => Some(o),
            _ => None,
        }
    } else {
        None
    }
}

/// The name of the object `obj` can be read.
pub open spec fn name_readable(m: &Manifest, obj: usize) -> bool {
    forall|at: Seq<char>| #[trigger] read_name_spec(m.objects@[obj as int]@, at) is Ok
}

/// Meeting an object again while it is being built is a dependency cycle.
pub proof fn lemma_reentry_is_cycle(
    m: &Manifest,
    st: BuildState,
    obj: usize,
    path: Seq<usize>,
    at: Seq<char>,
)
    requires
        st.cache[obj as int] is None,
        path.contains(obj),
    ensures
        build_object_spec(m, st, obj, path, at) == (
            st,
            Err::<usize, _>(MagErrorView::DependencyCycle),
        ),
{
}

/// A package that reaches itself through first run-time dependencies fails
/// with `DependencyCycle`.
///
/// `chain` lists packages, each with a readable name and none built yet;
/// each has the next as its first run-time dependency, and the last has one
/// of the chain, `chain[back]`, as its first. Building `chain[from]` after
/// the packages before it were entered then ends in `DependencyCycle` and
/// leaves the graph as it was.
pub proof fn lemma_first_dep_cycle(
    m: &Manifest,
    st: BuildState,
    chain: Seq<usize>,
    back: int,
    from: int,
    at: Seq<char>,
)
    requires
        0 <= back < chain.len(),
        0 <= from < chain.len(),
        path_ok(m, chain),
        forall|i: int| 0 <= i < chain.len() ==> st.cache[(#[trigger] chain[i]) as int] is None,
        forall|i: int| 0 <= i < chain.len() ==> name_readable(m, #[trigger] chain[i]),
        forall|i: int|
            0 <= i < chain.len() - 1 ==> first_run_dep(m, #[trigger] chain[i]) == Some(
                chain[i + 1],
            ),
        first_run_dep(m, chain.last()) == Some(chain[back]),
    ensures
        build_object_spec(m, st, chain[from], chain.take(from), at) == (
            st,
            Err::<usize, _>(MagErrorView::DependencyCycle),
        ),
    decreases chain.len() - from,
{
    let obj = chain[from];
    let path = chain.take(from);
    let entered = chain.take(from + 1);
    assert(path.push(obj) =~= entered);
    assert(!path.contains(obj)) by {
        if path.contains(obj) {
            let k = choose|k: int| 0 <= k < path.len() && path[k] == obj;
            assert(chain[k] == chain[from]);
        }
    }
    assert(path.len() < m.objects@.len()) by {
        lemma_path_bound(chain, m.objects@.len());
    }
    let next = if from < chain.len() - 1 {
        chain[from + 1]
    } else {
        chain[back]
    };
    assert(first_run_dep(m, obj) == Some(next));
    assert(name_readable(m, obj));
    assert(read_name_spec(m.objects@[obj as int]@, at) is Ok);
    let fields = m.objects@[obj as int]@;
    let items = items_of(m, fields, "runDeps"@);
    let list_at = field_path(at, "runDeps"@);
    let here = item_path(list_at, 0);
    assert(build_object_spec(m, st, next, entered, here) == (
        st,
        Err::<usize, _>(MagErrorView::DependencyCycle),
    )) by {
        if from < chain.len() - 1 {
            lemma_first_dep_cycle(m, st, chain, back, from + 1, here);
        } else {
            assert(entered[back] == chain[back]);
            lemma_reentry_is_cycle(m, st, next, entered, here);
        }
    }
    assert(collect_spec(m, st, items, entered, list_at, 1) == (
        st,
        Err::<Seq<usize>, _>(MagErrorView::DependencyCycle),
    )) by {
        assert(collect_spec(m, st, items, entered, list_at, 0) == (
            st,
            Ok::<_, MagErrorView>(Seq::<usize>::empty()),
        ));
    }
    lemma_collect_err_stays(m, st, items, entered, list_at, 1, items.len() as int);
}

/// A package whose first run-time dependency is the package itself fails
/// with `DependencyCycle`, whatever was built before.
pub proof fn lemma_self_dependency_is_cycle(m: &Manifest, nodes: Seq<PackageView>, obj: usize)
    requires
        obj < m.objects@.len(),
        name_readable(m, obj),
        first_run_dep(m, obj) == Some(obj),
    ensures
        roots_spec(m, start_state(m, nodes), ManifestValue::Obj(obj)) == (
            start_state(m, nodes),
            Err::<Seq<usize>, _>(MagErrorView::DependencyCycle),
        ),
{
    let chain = seq![obj];
    assert(chain.take(0) =~= Seq::<usize>::empty());
    lemma_first_dep_cycle(m, start_state(m, nodes), chain, 0, 0, root_path());
}

} // verus!
