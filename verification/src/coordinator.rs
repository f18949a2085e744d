//! The decisions of the store coordinator: whether a package is built at
//! all, by which recipe, where its workspace lies, and what is unpacked and
//! fetched for it, in which order.

use vstd::prelude::*;
use crate::error::{MagError, MagErrorView};
use crate::graph::{all_below, node_wf, PackageGraph};
use crate::package::{base_name_spec, package_base_name, Package, PackageView};
use crate::store::{extension_spec, find_after_last, join_path, join_spec, PackageStore};
use crate::text::{chars_of, concat2, str_eq, string_of_range};

verus! {

/// What a builder does once it holds the package lock.
#[derive(Clone, Copy, Debug, PartialEq, Eq, Structural)]
pub enum BuildDecision {
    /// The artifact is there: it is touched and handed out, nothing is built.
    UseCached,
    /// There is no artifact: the package is built.
    Build,
}

/// What a builder does under the package lock: it uses the artifact that
/// is there, and builds only where there is none.
pub open spec fn decide_build_spec(artifact_exists: bool) -> BuildDecision {
    if artifact_exists {
        BuildDecision::UseCached
    } else {
        BuildDecision::Build
    }
}

/// Decides under the package lock whether the package is built.
pub fn decide_build(artifact_exists: bool) -> (d: BuildDecision)
    ensures
        d == decide_build_spec(artifact_exists),
{
    if artifact_exists {
        BuildDecision::UseCached
    } else {
        BuildDecision::Build
    }
}

/// The artifacts that the store holds once the first `n` of `artifacts`
/// were handled, each build having succeeded.
pub open spec fn present_after(
    present: Set<Seq<char>>,
    artifacts: Seq<Seq<char>>,
    n: int,
) -> Set<Seq<char>>
    decreases n,
{
    if n <= 0 {
        present
    } else {
        present_after(present, artifacts, n - 1).insert(artifacts[n - 1])
    }
}

/// The artifacts among the first `n` of `artifacts` for which a build ran.
pub open spec fn builds_run(
    present: Set<Seq<char>>,
    artifacts: Seq<Seq<char>>,
    n: int,
) -> Seq<Seq<char>>
    decreases n,
{
    if n <= 0 {
        Seq::empty()
    } else {
        let before = builds_run(present, artifacts, n - 1);
        let found = present_after(present, artifacts, n - 1).contains(artifacts[n - 1]);
        if decide_build_spec(found) == BuildDecision::Build {
            before.push(artifacts[n - 1])
        } else {
            before
        }
    }
}

/// What the store holds only grows.
pub proof fn lemma_present_grows(
    present: Set<Seq<char>>,
    artifacts: Seq<Seq<char>>,
    n: int,
    a: Seq<char>,
)
    requires
        present.contains(a),
    ensures
        present_after(present, artifacts, n).contains(a),
    decreases n,
{
    if n > 0 {
        lemma_present_grows(present, artifacts, n - 1, a);
    }
}

/// Every artifact handled is in the store afterwards.
pub proof fn lemma_handled_is_present(
    present: Set<Seq<char>>,
    artifacts: Seq<Seq<char>>,
    n: int,
    k: int,
)
    requires
        0 <= k < n,
    ensures
        present_after(present, artifacts, n).contains(artifacts[k]),
    decreases n,
{
    if k < n - 1 {
        lemma_handled_is_present(present, artifacts, n - 1, k);
    }
}

/// Building is idempotent: when the packages of a build order are built a
/// second time, every build of the first time having succeeded, no build
/// runs, for each package finds its artifact.
pub proof fn lemma_rebuild_runs_nothing(
    present: Set<Seq<char>>,
    artifacts: Seq<Seq<char>>,
    n: int,
)
    requires
        0 <= n <= artifacts.len(),
    ensures
        builds_run(
            present_after(present, artifacts, artifacts.len() as int),
            artifacts,
            n,
        ) == Seq::<Seq<char>>::empty(),
    decreases n,
{
    if n > 0 {
        let second = present_after(present, artifacts, artifacts.len() as int);
        lemma_rebuild_runs_nothing(present, artifacts, n - 1);
        lemma_handled_is_present(present, artifacts, artifacts.len() as int, n - 1);
        lemma_present_grows(second, artifacts, n - 1, artifacts[n - 1]);
    }
}

/// How a package is built.
#[derive(Clone, Copy, Debug, PartialEq, Eq, Structural)]
pub enum Recipe {
    /// The fetched archives are unpacked; they are the package.
    Untar,
    /// The build script runs in a sandbox.
    Sandbox,
}

/// The recipe of a package: unpacking where its script is the word `untar`, a sandbox else.
pub fn recipe_of(package: &Package) -> (r: Recipe)
    ensures
        r == if package@.build == "untar"@ {
            Recipe::Untar
        } else {
            Recipe::Sandbox
        },
{
    if str_eq(package.build.as_str(), "untar") {
        Recipe::Untar
    } else {
        Recipe::Sandbox
    }
}

/// Whether a sandboxed build runs anything: an empty script runs nothing.
pub fn runs_script(package: &Package) -> (r: bool)
    ensures
        r == (package@.build.len() > 0),
{
    !package.build.as_str().is_empty()
}

/// Unpacking needs something to unpack.
pub fn untar_inputs_check(fetch_count: usize) -> (r: Result<(), MagError>)
    ensures
        r is Ok <==> fetch_count > 0,
        r matches Err(e) ==> e@ == MagErrorView::Generic(
            "untar build script requires at least one fetch resource"@,
        ),
{
    if fetch_count == 0 {
        Err(
            MagError::Generic(
                String::from_str("untar build script requires at least one fetch resource"),
            ),
        )
    } else {
        Ok(())
    }
}

/// The diagnostic for a dependency that was not built.
pub fn missing_artifact(hash: &str) -> (e: MagError)
    ensures
        e@ == MagErrorView::Generic("missing artifact for dependency "@ + hash@),
{
    MagError::Generic(concat2("missing artifact for dependency ", hash))
}

/// Whether the sources of a package are fetched ahead of its build: not
/// when only missing packages are asked for and the artifact is there, and
/// not when the package declares no source.
pub fn needs_fetch(missing_only: bool, artifact_exists: bool, fetch_count: usize) -> (r: bool)
    ensures
        r == (!(missing_only && artifact_exists) && fetch_count > 0),
{
    !(missing_only && artifact_exists) && fetch_count > 0
}

/// The formats of archives that are unpacked.
#[derive(Clone, Copy, Debug, PartialEq, Eq, Structural)]
pub enum ArchiveFormat {
    /// A tar archive compressed with zstd.
    Zstd,
    /// A tar archive compressed with gzip.
    Gzip,
    /// A plain tar archive.
    Tar,
}

/// The format of an archive, by the extension of its path.
pub open spec fn archive_format_spec(path: Seq<char>) -> Result<ArchiveFormat, MagErrorView> {
    let ext = extension_spec(path);
    if ext == Some("zst"@) {
        Ok(ArchiveFormat::Zstd)
    } else if ext == Some("gz"@) {
        Ok(ArchiveFormat::Gzip)
    } else if ext == Some("tar"@) {
        Ok(ArchiveFormat::Tar)
    } else {
        Err(MagErrorView::Generic("unsupported archive format for "@ + path))
    }
}

/// Tells the format of the archive at `path` by its extension: `zst`,
/// `gz` or `tar`; any other archive is refused.
pub fn archive_format(path: &str) -> (r: Result<ArchiveFormat, MagError>)
    ensures
        match r {
            Ok(f) => archive_format_spec(path@) == Ok::<_, MagErrorView>(f),
            Err(e) => archive_format_spec(path@) == Err::<ArchiveFormat, _>(e@),
        },
{
    let v = chars_of(path);
    proof {
        assert(v@.subrange(0, v@.len() as int) =~= v@);
    }
    let start = find_after_last(&v, 0, '/');
    let dot = find_after_last(&v, start, '.');
    let ghost name = v@.subrange(start as int, v@.len() as int);
    if dot - start > 1 {
        let ext = string_of_range(&v, dot, v.len());
        proof {
            assert(name.subrange(dot - start, name.len() as int) =~= v@.subrange(
                dot as int,
                v@.len() as int,
            ));
        }
        if str_eq(ext.as_str(), "zst") {
            return Ok(ArchiveFormat::Zstd);
        }
        if str_eq(ext.as_str(), "gz") {
            return Ok(ArchiveFormat::Gzip);
        }
        if str_eq(ext.as_str(), "tar") {
            return Ok(ArchiveFormat::Tar);
        }
    }
    Err(MagError::Generic(concat2("unsupported archive format for ", path)))
}

/// What lies where an archive entry is to be unpacked.
#[derive(Clone, Copy, Debug, PartialEq, Eq, Structural)]
pub enum ExistingKind {
    Missing,
    Dir,
    File,
    Symlink,
    Other,
}

/// What is done to what lies in the way of an archive entry.
#[derive(Clone, Copy, Debug, PartialEq, Eq, Structural)]
pub enum Removal {
    /// Nothing: the entry is unpacked over it.
    Keep,
    /// The file or link is removed.
    RemoveFile,
    /// The directory is removed with all it holds.
    RemoveDirAll,
}

/// The rule for unpacking into a tree that is not empty: what lies at an
/// entry's place and is of another kind than the entry gives way. A
/// directory stays under a directory entry; anything else under a
/// directory entry, and anything under another entry, is removed.
pub open spec fn entry_conflict_spec(
    entry_is_dir: bool,
    has_path: bool,
    existing: ExistingKind,
) -> Removal {
    if !has_path || existing == ExistingKind::Missing {
        Removal::Keep
    } else if entry_is_dir {
        if existing == ExistingKind::Dir {
            Removal::Keep
        } else if existing == ExistingKind::Symlink || existing == ExistingKind::File {
            Removal::RemoveFile
        } else {
            Removal::RemoveDirAll
        }
    } else if existing == ExistingKind::Dir {
        Removal::RemoveDirAll
    } else {
        Removal::RemoveFile
    }
}

/// Decides what gives way to an archive entry. `has_path` says whether the
/// entry's path has any component.
pub fn entry_conflict(entry_is_dir: bool, has_path: bool, existing: ExistingKind) -> (r: Removal)
    ensures
        r == entry_conflict_spec(entry_is_dir, has_path, existing),
{
    if !has_path || existing == ExistingKind::Missing {
        Removal::Keep
    } else if entry_is_dir {
        if existing == ExistingKind::Dir {
            Removal::Keep
        } else if existing == ExistingKind::Symlink || existing == ExistingKind::File {
            Removal::RemoveFile
        } else {
            Removal::RemoveDirAll
        }
    } else if existing == ExistingKind::Dir {
        Removal::RemoveDirAll
    } else {
        Removal::RemoveFile
    }
}

/// The places of a build.
#[derive(Debug)]
pub struct BuildPaths {
    /// The base name of the package.
    pub base: String,
    /// The finished artifact.
    pub artifact: String,
    /// The file the artifact is written to before it is moved into place.
    pub artifact_temp: String,
    /// The package lock.
    pub lock: String,
    /// The workspace.
    pub build_root: String,
    /// The directory that is packed when the build is done.
    pub out_dir: String,
    /// The directory into which the fetched files are put.
    pub fetch_dir: String,
    /// The root of the sandbox; the workspace itself for an unpacking build.
    pub rootfs: String,
    /// The directory of the unpacked build-time dependencies.
    pub store_dir: String,
    /// The working directory of the build script.
    pub work_dir: String,
}

/// The places of the build of `package` by `recipe` in `store`.
pub fn build_paths(store: &PackageStore, package: &Package, recipe: Recipe) -> (p: BuildPaths)
    ensures
        p.base@ == base_name_spec(package@.name, package@.hash),
        p.artifact@ == join_spec(store.store_root@, p.base@ + ".tar.zst"@),
        p.artifact_temp@ == p.artifact@ + ".tmp"@,
        p.lock@ == join_spec(store.store_root@, p.base@ + ".lock"@),
        p.build_root@ == join_spec(store.store_root@, p.base@ + ".build"@),
        recipe == Recipe::Untar ==> {
            &&& p.rootfs@ == p.build_root@
            &&& p.out_dir@ == join_spec(p.build_root@, "untar-out"@)
        },
        recipe == Recipe::Sandbox ==> {
            &&& p.rootfs@ == join_spec(p.build_root@, "rootfs"@)
            &&& p.out_dir@ == join_spec(p.rootfs@, "out"@)
        },
        p.fetch_dir@ == join_spec(p.rootfs@, "fetch"@),
        p.store_dir@ == join_spec(p.rootfs@, "store"@),
        p.work_dir@ == join_spec(p.rootfs@, "build"@),
{
    let base = package_base_name(package);
    let artifact = store.package_file(base.as_str(), ".tar.zst");
    let artifact_temp = concat2(artifact.as_str(), ".tmp");
    let lock = store.package_file(base.as_str(), ".lock");
    let build_root = store.package_file(base.as_str(), ".build");
    let (rootfs, out_dir) = match recipe {
        Recipe::Untar => (build_root.clone(), join_path(build_root.as_str(), "untar-out")),
        Recipe::Sandbox => {
            let rootfs = join_path(build_root.as_str(), "rootfs");
            let out_dir = join_path(rootfs.as_str(), "out");
            (rootfs, out_dir)
        },
    };
    let fetch_dir = join_path(rootfs.as_str(), "fetch");
    let store_dir = join_path(rootfs.as_str(), "store");
    let work_dir = join_path(rootfs.as_str(), "build");
    BuildPaths {
        base,
        artifact,
        artifact_temp,
        lock,
        build_root,
        out_dir,
        fetch_dir,
        rootfs,
        store_dir,
        work_dir,
    }
}

/// How many packages a walk has not entered.
pub open spec fn unvisited(visited: Seq<bool>) -> nat
    decreases visited.len(),
{
    if visited.len() == 0 {
        0
    } else {
        unvisited(visited.drop_last()) + if visited.last() {
            0nat
        } else {
            1nat
        }
    }
}

/// Entering a package leaves one fewer to enter.
pub proof fn lemma_unvisited_update(visited: Seq<bool>, i: int)
    requires
        0 <= i < visited.len(),
        !visited[i],
    ensures
        unvisited(visited.update(i, true)) + 1 == unvisited(visited),
    decreases visited.len(),
{
    let after = visited.update(i, true);
    if i == visited.len() - 1 {
        assert(after.drop_last() =~= visited.drop_last());
    } else {
        assert(after.drop_last() =~= visited.drop_last().update(i, true));
        lemma_unvisited_update(visited.drop_last(), i);
    }
}

/// The packages reached from a queue, breadth first: a package is taken
/// from the front of the queue; unless it was entered before, it is
/// entered, and its run-time and then its build-time dependencies join the
/// queue at its end.
pub open spec fn breadth_first_spec(
    nodes: Seq<PackageView>,
    queue: Seq<usize>,
    visited: Seq<bool>,
    out: Seq<usize>,
) -> Seq<usize>
    decreases unvisited(visited), queue.len(),
{
    if queue.len() == 0 {
        out
    } else {
        let x = queue[0];
        let rest = queue.subrange(1, queue.len() as int);
        if x >= visited.len() || x >= nodes.len() || visited[x as int] {
            breadth_first_spec(nodes, rest, visited, out)
        } else {
            proof {
                lemma_unvisited_update(visited, x as int);
            }
            breadth_first_spec(
                nodes,
                rest + nodes[x as int].run_deps + nodes[x as int].build_deps,
                visited.update(x as int, true),
                out.push(x),
            )
        }
    }
}

/// The packages reached from `start`, breadth first, each once.
pub open spec fn reach_spec(nodes: Seq<PackageView>, start: Seq<usize>) -> Seq<usize> {
    breadth_first_spec(nodes, start, Seq::new(nodes.len(), |i: int| false), Seq::empty())
}

/// `d` waits in the queue at or behind `head`.
pub open spec fn pending(queue: Seq<usize>, head: int, d: usize) -> bool {
    exists|j: int| head <= j < queue.len() && queue[j] == d
}

/// The packages reached from `start`, breadth first, each once: the order
/// in which sources are fetched ahead of a build.
#[verifier::loop_isolation(false)]
pub fn breadth_first(graph: &PackageGraph, start: &Vec<usize>) -> (out: Vec<usize>)
    requires
        graph.wf(),
        all_below(start@, graph@.len() as int),
    ensures
        out@ == reach_spec(graph@, start@),
        out@.no_duplicates(),
        all_below(out@, graph@.len() as int),
        forall|k: int| 0 <= k < start@.len() ==> out@.contains(#[trigger] start@[k]),
        forall|p: int, k: int|
            0 <= p < out@.len() && 0 <= k < graph@[out@[p] as int].run_deps.len()
                ==> out@.contains(#[trigger] graph@[out@[p] as int].run_deps[k]),
        forall|p: int, k: int|
            0 <= p < out@.len() && 0 <= k < graph@[out@[p] as int].build_deps.len()
                ==> out@.contains(#[trigger] graph@[out@[p] as int].build_deps[k]),
{
    let ghost nodes = graph@;
    let n: usize = graph.nodes.len();
    let mut visited: Vec<bool> = Vec::new();
    let mut i: usize = 0;
    while i < n
        invariant
            i <= n,
            visited@.len() == i,
            forall|k: int| 0 <= k < i ==> !visited@[k],
        decreases n - i,
    {
        visited.push(false);
        i = i + 1;
    }
    assert(visited@ =~= Seq::new(nodes.len(), |i: int| false));
    let mut queue: Vec<usize> = Vec::new();
    let mut s: usize = 0;
    while s < start.len()
        invariant
            s <= start@.len(),
            queue@ == start@.subrange(0, s as int),
        decreases start@.len() - s,
    {
        queue.push(start[s]);
        s = s + 1;
        assert(queue@ =~= start@.subrange(0, s as int));
    }
    assert(queue@ =~= start@);
    let mut out: Vec<usize> = Vec::new();
    let mut head: usize = 0;
    assert(queue@.subrange(0, queue@.len() as int) =~= queue@);
    assert forall|k: int| 0 <= k < start@.len() implies pending(queue@, 0, #[trigger] start@[k]) by {
        assert(queue@[k] == start@[k]);
    }
    while head < queue.len()
        invariant
            head <= queue@.len(),
            visited@.len() == n,
            all_below(queue@, n as int),
            reach_spec(nodes, start@) == breadth_first_spec(
                nodes,
                queue@.subrange(head as int, queue@.len() as int),
                visited@,
                out@,
            ),
            out@.no_duplicates(),
            forall|p: int| 0 <= p < out@.len() ==> (#[trigger] out@[p]) < n && visited@[out@[p] as int],
            forall|v: int| 0 <= v < n && #[trigger] visited@[v] ==> out@.contains(v as usize),
            forall|k: int|
                0 <= k < start@.len() ==> visited@[(#[trigger] start@[k]) as int] || pending(
                    queue@,
                    head as int,
                    start@[k],
                ),
            forall|p: int, k: int|
                0 <= p < out@.len() && 0 <= k < nodes[out@[p] as int].run_deps.len() ==> {
                    let d = #[trigger] nodes[out@[p] as int].run_deps[k];
                    d < n && (visited@[d as int] || pending(queue@, head as int, d))
                },
            forall|p: int, k: int|
                0 <= p < out@.len() && 0 <= k < nodes[out@[p] as int].build_deps.len() ==> {
                    let d = #[trigger] nodes[out@[p] as int].build_deps[k];
                    d < n && (visited@[d as int] || pending(queue@, head as int, d))
                },
        decreases unvisited(visited@), queue@.len() - head,
    {
        let ghost q0 = queue@;
        let ghost v0 = visited@;
        let ghost o0 = out@;
        let ghost pend0 = q0.subrange(head as int, q0.len() as int);
        let x = queue[head];
        assert(pend0[0] == x);
        assert(pend0.subrange(1, pend0.len() as int) =~= q0.subrange(head + 1, q0.len() as int));
        head = head + 1;
        if visited[x] {
            assert forall|d: usize|
                pending(q0, head - 1, d) implies visited@[d as int] || pending(
                queue@,
                head as int,
                d,
            ) by {
                let j = choose|j: int| head - 1 <= j < q0.len() && q0[j] == d;
                if j >= head {
                    assert(queue@[j] == d);
                }
            }
        } else {
            proof {
                lemma_unvisited_update(v0, x as int);
                assert(node_wf(nodes, x as int));
            }
            visited.set(x, true);
            let package = &graph.nodes[x];
            let mut a: usize = 0;
            while a < package.run_deps.len()
                invariant
                    a <= package.run_deps@.len(),
                    head <= queue@.len(),
                    visited@ == v0.update(x as int, true),
                    out@ == o0,
                    queue@ == q0 + package.run_deps@.subrange(0, a as int),
                    all_below(queue@, n as int),
                decreases package.run_deps@.len() - a,
            {
                queue.push(package.run_deps[a]);
                a = a + 1;
                assert(queue@ =~= q0 + package.run_deps@.subrange(0, a as int));
            }
            assert(package.run_deps@.subrange(0, package.run_deps@.len() as int)
                =~= package.run_deps@);
            let ghost q1 = queue@;
            let mut b: usize = 0;
            while b < package.build_deps.len()
                invariant
                    b <= package.build_deps@.len(),
                    head <= queue@.len(),
                    visited@ == v0.update(x as int, true),
                    out@ == o0,
                    queue@ == q1 + package.build_deps@.subrange(0, b as int),
                    all_below(queue@, n as int),
                decreases package.build_deps@.len() - b,
            {
                queue.push(package.build_deps[b]);
                b = b + 1;
                assert(queue@ =~= q1 + package.build_deps@.subrange(0, b as int));
            }
            assert(package.build_deps@.subrange(0, package.build_deps@.len() as int)
                =~= package.build_deps@);
            out.push(x);
            proof {
                let run = nodes[x as int].run_deps;
                let bld = nodes[x as int].build_deps;
                assert(queue@ == q0 + run + bld);
                assert(queue@.subrange(head as int, queue@.len() as int) =~= q0.subrange(
                    head as int,
                    q0.len() as int,
                ) + run + bld);
                assert(out@.no_duplicates()) by {
                    assert forall|a: int, b: int|
                        0 <= a < out@.len() && 0 <= b < out@.len() && a != b implies out@[a]
                        != out@[b] by {
                        if a < o0.len() && b < o0.len() {
                            assert(o0[a] != o0[b]);
                        } else if a < o0.len() {
                            assert(v0[o0[a] as int]);
                        } else {
                            assert(v0[o0[b] as int]);
                        }
                    }
                }
                assert forall|p: int| 0 <= p < out@.len() implies (#[trigger] out@[p]) < n
                    && visited@[out@[p] as int] by {
                    if p < o0.len() {
                        assert(out@[p] == o0[p]);
                    }
                }
                assert forall|v: int| 0 <= v < n && #[trigger] visited@[v] implies out@.contains(
                    v as usize,
                ) by {
                    if v == x {
                        assert(out@[o0.len() as int] == x);
                    } else {
                        assert(v0[v]);
                        let q = choose|q: int| 0 <= q < o0.len() && o0[q] == v as usize;
                        assert(out@[q] == v as usize);
                    }
                }
                assert forall|d: usize|
                    pending(q0, head - 1, d) implies visited@[d as int] || pending(
                    queue@,
                    head as int,
                    d,
                ) by {
                    let j = choose|j: int| head - 1 <= j < q0.len() && q0[j] == d;
                    if j >= head {
                        assert(queue@[j] == d);
                    }
                }
                assert forall|p: int, k: int|
                    0 <= p < out@.len() && 0 <= k < nodes[out@[p] as int].run_deps.len() implies ({
                    let d = #[trigger] nodes[out@[p] as int].run_deps[k];
                    d < n && (visited@[d as int] || pending(queue@, head as int, d))
                }) by {
                    let d = nodes[out@[p] as int].run_deps[k];
                    if p < o0.len() {
                        assert(out@[p] == o0[p]);
                        let d0 = nodes[o0[p] as int].run_deps[k];
                        assert(d0 < n && (v0[d0 as int] || pending(q0, head - 1, d0)));
                    } else {
                        assert(queue@[q0.len() + k] == d);
                    }
                }
                assert forall|p: int, k: int|
                    0 <= p < out@.len() && 0 <= k < nodes[out@[p] as int].build_deps.len() implies ({
                    let d = #[trigger] nodes[out@[p] as int].build_deps[k];
                    d < n && (visited@[d as int] || pending(queue@, head as int, d))
                }) by {
                    let d = nodes[out@[p] as int].build_deps[k];
                    if p < o0.len() {
                        assert(out@[p] == o0[p]);
                        let d0 = nodes[o0[p] as int].build_deps[k];
                        assert(d0 < n && (v0[d0 as int] || pending(q0, head - 1, d0)));
                    } else {
                        assert(queue@[q0.len() + run.len() + k] == d);
                    }
                }
            }
        }
    }
    proof {
        assert(queue@.subrange(head as int, queue@.len() as int) =~= Seq::<usize>::empty());
        assert forall|d: usize| !pending(queue@, head as int, d) by {}
    }
    out
}

} // verus!
