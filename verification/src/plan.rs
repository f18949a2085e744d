//! The steps of a build, laid out before anything is touched.
//!
//! Once a builder holds the package lock and has found no artifact, the
//! build is a fixed sequence of steps on the filesystem. [`plan_build`]
//! writes that sequence down; who carries it out stops at the first step
//! that fails.

use vstd::prelude::*;
use crate::closure::{build_order, closure_spec, followed, install_order, DepOrder};
use crate::coordinator::{
    breadth_first, build_paths, needs_fetch, reach_spec, recipe_of, BuildPaths, Recipe,
};
use crate::graph::{all_below, PackageGraph};
use crate::package::{
    base_name_spec, fetches_view, package_base_name, strings_view, FetchResource,
    FetchResourceView, PackageView,
};
use crate::sandbox::{
    build_env_spec, build_mounts_spec, build_sandbox, effective_parallelism, env_view,
    mounts_view, script_file_name, script_target, script_text, script_text_spec, MountView,
    SandboxSpec,
};
use crate::store::{join_path, join_spec, opt_view, PackageStore};
use crate::text::decimal_spec;

verus! {

/// One step of a build.
#[derive(Debug)]
pub enum BuildStep {
    /// Remove the directory with all it holds, if it is there, and make it anew.
    ResetDir { path: String },
    /// Make the directory and its parents.
    MakeDir { path: String },
    /// Make the directory unless something is at its place already.
    EnsureDir { path: String },
    /// Make the directory, or empty it if it is there.
    ClearDir { path: String },
    /// Unpack the artifact of the dependency `package` into `dest`. A
    /// dependency without artifact ends the build.
    Extract { package: usize, artifact: String, dest: String },
    /// Bring the fetch resource number `index` into the cache and copy it to `dest`.
    Stage { index: usize, dest: String },
    /// End the build: an unpacking build needs at least one fetch resource.
    RequireInputs,
    /// Unpack the fetched archive `archive` into `dest`.
    Unpack { archive: String, dest: String },
    /// Write `text` to `host_path` and run it in the sandbox.
    RunScript { host_path: String, text: String, sandbox: SandboxSpec },
    /// Pack the tree at `source` into `temp` and move that to `dest`.
    Pack { source: String, temp: String, dest: String },
    /// Set the modification time of `path` to now.
    Touch { path: String },
    /// Remove the directory with all it holds.
    RemoveDir { path: String },
}

/// The mathematical value of a [`SandboxSpec`].
pub struct SandboxView {
    pub mounts: Seq<MountView>,
    pub clear_env: bool,
    pub env: Seq<(Seq<char>, Seq<char>)>,
    pub unshare_net: bool,
    pub cwd: Seq<char>,
    pub command: Seq<Seq<char>>,
}

/// The value of what the sandbox executor is told.
pub open spec fn sandbox_view(s: SandboxSpec) -> SandboxView {
    SandboxView {
        mounts: mounts_view(s.mounts@),
        clear_env: s.clear_env,
        env: env_view(s.env@),
        unshare_net: s.unshare_net,
        cwd: s.cwd@,
        command: strings_view(s.command@),
    }
}

/// The mathematical value of a [`BuildStep`].
pub enum StepView {
    ResetDir { path: Seq<char> },
    MakeDir { path: Seq<char> },
    EnsureDir { path: Seq<char> },
    ClearDir { path: Seq<char> },
    Extract { package: usize, artifact: Seq<char>, dest: Seq<char> },
    Stage { index: usize, dest: Seq<char> },
    RequireInputs,
    Unpack { archive: Seq<char>, dest: Seq<char> },
    RunScript { host_path: Seq<char>, text: Seq<char>, sandbox: SandboxView },
    Pack { source: Seq<char>, temp: Seq<char>, dest: Seq<char> },
    Touch { path: Seq<char> },
    RemoveDir { path: Seq<char> },
}

impl View for BuildStep {
    type V = StepView;

    open spec fn view(&self) -> StepView {
        match self {
            BuildStep::ResetDir { path } => StepView::ResetDir { path: path@ },
            BuildStep::MakeDir { path } => StepView::MakeDir { path: path@ },
            BuildStep::EnsureDir { path } => StepView::EnsureDir { path: path@ },
            BuildStep::ClearDir { path } => StepView::ClearDir { path: path@ },
            BuildStep::Extract { package, artifact, dest } => StepView::Extract {
                package: *package,
                artifact: artifact@,
                dest: dest@,
            },
            BuildStep::Stage { index, dest } => StepView::Stage { index: *index, dest: dest@ },
            BuildStep::RequireInputs => StepView::RequireInputs,
            BuildStep::Unpack { archive, dest } => StepView::Unpack {
                archive: archive@,
                dest: dest@,
            },
            BuildStep::RunScript { host_path, text, sandbox } => StepView::RunScript {
                host_path: host_path@,
                text: text@,
                sandbox: sandbox_view(*sandbox),
            },
            BuildStep::Pack { source, temp, dest } => StepView::Pack {
                source: source@,
                temp: temp@,
                dest: dest@,
            },
            BuildStep::Touch { path } => StepView::Touch { path: path@ },
            BuildStep::RemoveDir { path } => StepView::RemoveDir { path: path@ },
        }
    }
}

/// The values of a list of steps.
pub open spec fn steps_view(v: Seq<BuildStep>) -> Seq<StepView> {
    Seq::new(v.len(), |i: int| v[i]@)
}

/// The places of a build, as values.
pub struct PathsView {
    pub base: Seq<char>,
    pub artifact: Seq<char>,
    pub artifact_temp: Seq<char>,
    pub lock: Seq<char>,
    pub build_root: Seq<char>,
    pub out_dir: Seq<char>,
    pub fetch_dir: Seq<char>,
    pub rootfs: Seq<char>,
    pub store_dir: Seq<char>,
    pub work_dir: Seq<char>,
}

/// The places of the build of `p` by `recipe` in the store whose packages lie in `store_root`.
pub open spec fn paths_spec(store_root: Seq<char>, p: PackageView, recipe: Recipe) -> PathsView {
    let base = base_name_spec(p.name, p.hash);
    let artifact = join_spec(store_root, base + ".tar.zst"@);
    let build_root = join_spec(store_root, base + ".build"@);
    let rootfs = if recipe == Recipe::Untar {
        build_root
    } else {
        join_spec(build_root, "rootfs"@)
    };
    PathsView {
        base,
        artifact,
        artifact_temp: artifact + ".tmp"@,
        lock: join_spec(store_root, base + ".lock"@),
        build_root,
        out_dir: if recipe == Recipe::Untar {
            join_spec(build_root, "untar-out"@)
        } else {
            join_spec(rootfs, "out"@)
        },
        fetch_dir: join_spec(rootfs, "fetch"@),
        rootfs,
        store_dir: join_spec(rootfs, "store"@),
        work_dir: join_spec(rootfs, "build"@),
    }
}

/// The artifact of package `p`.
pub open spec fn artifact_spec(store_root: Seq<char>, p: PackageView) -> Seq<char> {
    join_spec(store_root, base_name_spec(p.name, p.hash) + ".tar.zst"@)
}

/// Every fetch resource is brought into `dir` under its file name, in order.
pub open spec fn stage_steps(fetch: Seq<FetchResourceView>, dir: Seq<char>) -> Seq<StepView> {
    Seq::new(
        fetch.len(),
        |i: int| StepView::Stage { index: i as usize, dest: join_spec(dir, fetch[i].filename) },
    )
}

/// Every fetched archive is unpacked into `out`, in order.
pub open spec fn unpack_steps(
    fetch: Seq<FetchResourceView>,
    dir: Seq<char>,
    out: Seq<char>,
) -> Seq<StepView> {
    Seq::new(
        fetch.len(),
        |i: int| StepView::Unpack { archive: join_spec(dir, fetch[i].filename), dest: out },
    )
}

/// The artifacts of the packages `order` are unpacked into `dest`, in order.
pub open spec fn extract_steps(
    store_root: Seq<char>,
    nodes: Seq<PackageView>,
    order: Seq<usize>,
    dest: Seq<char>,
) -> Seq<StepView> {
    Seq::new(
        order.len(),
        |i: int|
            StepView::Extract {
                package: order[i],
                artifact: artifact_spec(store_root, nodes[order[i] as int]),
                dest,
            },
    )
}

/// The store directory of a build: each of the first `n` build-time
/// dependencies `deps`, where it is listed for the first time, gets a fresh
/// directory of its base name below `store_dir`, into which the artifacts
/// of all it reaches and then its own are unpacked, dependencies first.
pub open spec fn store_steps(
    store_root: Seq<char>,
    nodes: Seq<PackageView>,
    deps: Seq<usize>,
    store_dir: Seq<char>,
    n: int,
) -> Seq<StepView>
    decreases n,
{
    if n <= 0 {
        Seq::empty()
    } else {
        let before = store_steps(store_root, nodes, deps, store_dir, n - 1);
        let d = deps[n - 1];
        if deps.subrange(0, n - 1).contains(d) {
            before
        } else {
            let p = nodes[d as int];
            let dest = join_spec(store_dir, base_name_spec(p.name, p.hash));
            before + seq![StepView::ResetDir { path: dest }] + extract_steps(
                store_root,
                nodes,
                closure_spec(nodes, DepOrder::RunThenBuild, seq![d]),
                dest,
            )
        }
    }
}

/// The end of every build: the output is packed, artifact and lock are
/// touched, and the workspace goes.
pub open spec fn finish_steps(paths: PathsView) -> Seq<StepView> {
    seq![
        StepView::Pack { source: paths.out_dir, temp: paths.artifact_temp, dest: paths.artifact },
        StepView::Touch { path: paths.artifact },
        StepView::Touch { path: paths.lock },
        StepView::RemoveDir { path: paths.build_root },
    ]
}

/// The steps of an unpacking build: a fresh workspace, the fetched
/// archives brought in, and each unpacked into the output in the order of
/// the fetch list. Without a fetch resource there is nothing to unpack.
pub open spec fn untar_plan_spec(store_root: Seq<char>, p: PackageView) -> Seq<StepView> {
    let paths = paths_spec(store_root, p, Recipe::Untar);
    seq![
        StepView::ResetDir { path: paths.build_root },
        StepView::ClearDir { path: paths.fetch_dir },
        StepView::ClearDir { path: paths.out_dir },
    ] + stage_steps(p.fetch, paths.fetch_dir) + (if p.fetch.len() == 0 {
        seq![StepView::RequireInputs]
    } else {
        seq![StepView::ClearDir { path: paths.out_dir }] + unpack_steps(
            p.fetch,
            paths.fetch_dir,
            paths.out_dir,
        ) + finish_steps(paths)
    })
}

/// The directories that a sandbox root always has.
pub open spec fn placeholder_steps(rootfs: Seq<char>) -> Seq<StepView> {
    seq![
        StepView::EnsureDir { path: join_spec(rootfs, "dev"@) },
        StepView::EnsureDir { path: join_spec(rootfs, "proc"@) },
        StepView::EnsureDir { path: join_spec(rootfs, "sys"@) },
        StepView::EnsureDir { path: join_spec(rootfs, "tmp"@) },
    ]
}

/// The directories of a sandbox root that every build finds empty.
pub open spec fn cleared_steps(paths: PathsView) -> Seq<StepView> {
    seq![
        StepView::ClearDir { path: paths.out_dir },
        StepView::ClearDir { path: paths.fetch_dir },
        StepView::ClearDir { path: paths.store_dir },
        StepView::ClearDir { path: paths.work_dir },
    ]
}

/// The step that runs the build script, for a script that is not empty.
pub open spec fn script_steps(
    paths: PathsView,
    p: PackageView,
    parallelism: usize,
    term: Option<Seq<char>>,
    process: u32,
) -> Seq<StepView> {
    if p.build.len() == 0 {
        Seq::empty()
    } else {
        let host_path = join_spec(
            paths.build_root,
            ".magpkg-build-script-"@ + p.hash + "-"@ + decimal_spec(process as nat),
        );
        seq![
            StepView::RunScript {
                host_path,
                text: script_text_spec(p.build),
                sandbox: SandboxView {
                    mounts: build_mounts_spec(paths.rootfs, host_path),
                    clear_env: true,
                    env: build_env_spec(parallelism, term),
                    unshare_net: true,
                    cwd: "/build"@,
                    command: seq!["/bin/sh"@, script_target()],
                },
            },
        ]
    }
}

/// The steps of a sandboxed build of package `idx`: a fresh workspace
/// with a root into which the artifact of everything that the package's
/// dependencies reach is unpacked, build-time dependencies first, each
/// once; the root's fixed directories; the build-time dependencies and
/// what they reach unpacked once more, each under its base name in the
/// store directory; the fetch resources; the script; and the packing of
/// the output.
pub open spec fn sandbox_plan_spec(
    store_root: Seq<char>,
    nodes: Seq<PackageView>,
    idx: usize,
    parallelism: usize,
    term: Option<Seq<char>>,
    process: u32,
) -> Seq<StepView> {
    let p = nodes[idx as int];
    let paths = paths_spec(store_root, p, Recipe::Sandbox);
    seq![
        StepView::ResetDir { path: paths.build_root },
        StepView::MakeDir { path: paths.rootfs },
    ] + extract_steps(
        store_root,
        nodes,
        closure_spec(nodes, DepOrder::BuildThenRun, followed(p, DepOrder::BuildThenRun)),
        paths.rootfs,
    ) + placeholder_steps(paths.rootfs) + cleared_steps(paths) + store_steps(
        store_root,
        nodes,
        p.build_deps,
        paths.store_dir,
        p.build_deps.len() as int,
    ) + stage_steps(p.fetch, paths.fetch_dir) + script_steps(
        paths,
        p,
        parallelism,
        term,
        process,
    ) + finish_steps(paths)
}

/// The steps of the build of package `idx`, by its recipe.
pub open spec fn plan_spec(
    store_root: Seq<char>,
    nodes: Seq<PackageView>,
    idx: usize,
    parallelism: usize,
    term: Option<Seq<char>>,
    process: u32,
) -> Seq<StepView> {
    if nodes[idx as int].build == "untar"@ {
        untar_plan_spec(store_root, nodes[idx as int])
    } else {
        sandbox_plan_spec(store_root, nodes, idx, parallelism, term, process)
    }
}

fn push_stage(steps: &mut Vec<BuildStep>, fetch: &Vec<FetchResource>, dir: &str)
    ensures
        steps_view(final(steps)@) == steps_view(old(steps)@) + stage_steps(
            fetches_view(fetch@),
            dir@,
        ),
{
    let ghost start = steps_view(steps@);
    let ghost all = stage_steps(fetches_view(fetch@), dir@);
    let mut i: usize = 0;
    assert(steps_view(steps@) =~= start + all.subrange(0, 0));
    while i < fetch.len()
        invariant
            i <= fetch@.len(),
            all == stage_steps(fetches_view(fetch@), dir@),
            steps_view(steps@) == start + all.subrange(0, i as int),
        decreases fetch@.len() - i,
    {
        let ghost before = steps_view(steps@);
        let dest = join_path(dir, fetch[i].filename.as_str());
        steps.push(BuildStep::Stage { index: i, dest });
        proof {
            assert(fetches_view(fetch@)[i as int] == fetch@[i as int]@);
            assert(steps_view(steps@) =~= before.push(all[i as int]));
            assert(steps_view(steps@) =~= start + all.subrange(0, i + 1));
        }
        i = i + 1;
    }
    assert(all.subrange(0, all.len() as int) =~= all);
}

fn push_unpack(steps: &mut Vec<BuildStep>, fetch: &Vec<FetchResource>, dir: &str, out: &str)
    ensures
        steps_view(final(steps)@) == steps_view(old(steps)@) + unpack_steps(
            fetches_view(fetch@),
            dir@,
            out@,
        ),
{
    let ghost start = steps_view(steps@);
    let ghost all = unpack_steps(fetches_view(fetch@), dir@, out@);
    let mut i: usize = 0;
    assert(steps_view(steps@) =~= start + all.subrange(0, 0));
    while i < fetch.len()
        invariant
            i <= fetch@.len(),
            all == unpack_steps(fetches_view(fetch@), dir@, out@),
            steps_view(steps@) == start + all.subrange(0, i as int),
        decreases fetch@.len() - i,
    {
        let ghost before = steps_view(steps@);
        let archive = join_path(dir, fetch[i].filename.as_str());
        steps.push(BuildStep::Unpack { archive, dest: String::from_str(out) });
        proof {
            assert(fetches_view(fetch@)[i as int] == fetch@[i as int]@);
            assert(steps_view(steps@) =~= before.push(all[i as int]));
            assert(steps_view(steps@) =~= start + all.subrange(0, i + 1));
        }
        i = i + 1;
    }
    assert(all.subrange(0, all.len() as int) =~= all);
}

fn push_extract(
    steps: &mut Vec<BuildStep>,
    store: &PackageStore,
    graph: &PackageGraph,
    order: &Vec<usize>,
    dest: &str,
)
    requires
        all_below(order@, graph@.len() as int),
    ensures
        steps_view(final(steps)@) == steps_view(old(steps)@) + extract_steps(
            store.store_root@,
            graph@,
            order@,
            dest@,
        ),
{
    let ghost start = steps_view(steps@);
    let ghost all = extract_steps(store.store_root@, graph@, order@, dest@);
    let mut i: usize = 0;
    assert(steps_view(steps@) =~= start + all.subrange(0, 0));
    while i < order.len()
        invariant
            i <= order@.len(),
            all_below(order@, graph@.len() as int),
            all == extract_steps(store.store_root@, graph@, order@, dest@),
            steps_view(steps@) == start + all.subrange(0, i as int),
        decreases order@.len() - i,
    {
        let ghost before = steps_view(steps@);
        let package = order[i];
        let artifact = store.package_artifact_path(&graph.nodes[package]);
        steps.push(BuildStep::Extract { package, artifact, dest: String::from_str(dest) });
        proof {
            assert(steps_view(steps@) =~= before.push(all[i as int]));
            assert(steps_view(steps@) =~= start + all.subrange(0, i + 1));
        }
        i = i + 1;
    }
    assert(all.subrange(0, all.len() as int) =~= all);
}

fn listed_before(deps: &Vec<usize>, n: usize) -> (r: bool)
    requires
        n < deps@.len(),
    ensures
        r == deps@.subrange(0, n as int).contains(deps@[n as int]),
{
    let mut k: usize = 0;
    while k < n
        invariant
            k <= n < deps@.len(),
            forall|j: int| 0 <= j < k ==> deps@[j] != deps@[n as int],
        decreases n - k,
    {
        if deps[k] == deps[n] {
            assert(deps@.subrange(0, n as int)[k as int] == deps@[n as int]);
            return true;
        }
        k = k + 1;
    }
    assert forall|j: int| 0 <= j < deps@.subrange(0, n as int).len() implies deps@.subrange(
        0,
        n as int,
    )[j] != deps@[n as int] by {
        assert(deps@.subrange(0, n as int)[j] == deps@[j]);
    }
    false
}

fn push_store(
    steps: &mut Vec<BuildStep>,
    store: &PackageStore,
    graph: &PackageGraph,
    deps: &Vec<usize>,
    store_dir: &str,
)
    requires
        graph.wf(),
        all_below(deps@, graph@.len() as int),
    ensures
        steps_view(final(steps)@) == steps_view(old(steps)@) + store_steps(
            store.store_root@,
            graph@,
            deps@,
            store_dir@,
            deps@.len() as int,
        ),
{
    let ghost start = steps_view(steps@);
    let mut i: usize = 0;
    assert(steps_view(steps@) =~= start + store_steps(
        store.store_root@,
        graph@,
        deps@,
        store_dir@,
        0,
    ));
    while i < deps.len()
        invariant
            i <= deps@.len(),
            graph.wf(),
            all_below(deps@, graph@.len() as int),
            steps_view(steps@) == start + store_steps(
                store.store_root@,
                graph@,
                deps@,
                store_dir@,
                i as int,
            ),
        decreases deps@.len() - i,
    {
        let ghost before = steps_view(steps@);
        let ghost planned = store_steps(store.store_root@, graph@, deps@, store_dir@, i as int);
        if !listed_before(deps, i) {
            let package = deps[i];
            let node = &graph.nodes[package];
            let base = package_base_name(node);
            let dest = join_path(store_dir, base.as_str());
            steps.push(BuildStep::ResetDir { path: dest.clone() });
            assert(steps_view(steps@) =~= before + seq![StepView::ResetDir { path: dest@ }]);
            let mut roots: Vec<usize> = Vec::new();
            roots.push(package);
            assert(roots@ =~= seq![package]);
            let order = build_order(graph, &roots);
            push_extract(steps, store, graph, &order, dest.as_str());
            assert(steps_view(steps@) =~= start + (planned + seq![
                StepView::ResetDir { path: dest@ },
            ] + extract_steps(
                store.store_root@,
                graph@,
                closure_spec(graph@, DepOrder::RunThenBuild, seq![package]),
                dest@,
            )));
        }
        i = i + 1;
    }
}

/// The value of the places of a build.
pub open spec fn paths_view(p: BuildPaths) -> PathsView {
    PathsView {
        base: p.base@,
        artifact: p.artifact@,
        artifact_temp: p.artifact_temp@,
        lock: p.lock@,
        build_root: p.build_root@,
        out_dir: p.out_dir@,
        fetch_dir: p.fetch_dir@,
        rootfs: p.rootfs@,
        store_dir: p.store_dir@,
        work_dir: p.work_dir@,
    }
}

fn push_finish(steps: &mut Vec<BuildStep>, paths: &BuildPaths)
    ensures
        steps_view(final(steps)@) == steps_view(old(steps)@) + finish_steps(paths_view(*paths)),
{
    let ghost start = steps_view(steps@);
    steps.push(
        BuildStep::Pack {
            source: paths.out_dir.clone(),
            temp: paths.artifact_temp.clone(),
            dest: paths.artifact.clone(),
        },
    );
    steps.push(BuildStep::Touch { path: paths.artifact.clone() });
    steps.push(BuildStep::Touch { path: paths.lock.clone() });
    steps.push(BuildStep::RemoveDir { path: paths.build_root.clone() });
    assert(steps_view(steps@) =~= start + finish_steps(paths_view(*paths)));
}

fn push_dirs(steps: &mut Vec<BuildStep>, paths: &BuildPaths)
    ensures
        steps_view(final(steps)@) == steps_view(old(steps)@) + placeholder_steps(paths.rootfs@)
            + cleared_steps(paths_view(*paths)),
{
    let ghost start = steps_view(steps@);
    steps.push(BuildStep::EnsureDir { path: join_path(paths.rootfs.as_str(), "dev") });
    steps.push(BuildStep::EnsureDir { path: join_path(paths.rootfs.as_str(), "proc") });
    steps.push(BuildStep::EnsureDir { path: join_path(paths.rootfs.as_str(), "sys") });
    steps.push(BuildStep::EnsureDir { path: join_path(paths.rootfs.as_str(), "tmp") });
    steps.push(BuildStep::ClearDir { path: paths.out_dir.clone() });
    steps.push(BuildStep::ClearDir { path: paths.fetch_dir.clone() });
    steps.push(BuildStep::ClearDir { path: paths.store_dir.clone() });
    steps.push(BuildStep::ClearDir { path: paths.work_dir.clone() });
    assert(steps_view(steps@) =~= start + placeholder_steps(paths.rootfs@) + cleared_steps(
        paths_view(*paths),
    ));
}

/// Lays out the build of package `idx` of `graph` in `store`. The build
/// script is given `parallelism` and, where the host has one, the terminal
/// type `term`; `process` tells the script files of concurrent builders apart.
pub fn plan_build(
    store: &PackageStore,
    graph: &PackageGraph,
    idx: usize,
    parallelism: usize,
    term: Option<String>,
    process: u32,
) -> (steps: Vec<BuildStep>)
    requires
        graph.wf(),
        idx < graph@.len(),
    ensures
        steps_view(steps@) == plan_spec(
            store.store_root@,
            graph@,
            idx,
            parallelism,
            opt_view(term),
            process,
        ),
{
    let package = &graph.nodes[idx];
    let recipe = recipe_of(package);
    let paths = build_paths(store, package, recipe);
    let ghost p = graph@[idx as int];
    let ghost pv = paths_spec(store.store_root@, p, recipe);
    assert(paths_view(paths) == pv);
    let mut steps: Vec<BuildStep> = Vec::new();
    match recipe {
        Recipe::Untar => {
            steps.push(BuildStep::ResetDir { path: paths.build_root.clone() });
            steps.push(BuildStep::ClearDir { path: paths.fetch_dir.clone() });
            steps.push(BuildStep::ClearDir { path: paths.out_dir.clone() });
            let ghost head = steps_view(steps@);
            assert(head =~= seq![
                StepView::ResetDir { path: pv.build_root },
                StepView::ClearDir { path: pv.fetch_dir },
                StepView::ClearDir { path: pv.out_dir },
            ]);
            push_stage(&mut steps, &package.fetch, paths.fetch_dir.as_str());
            let ghost staged = steps_view(steps@);
            if package.fetch.len() == 0 {
                steps.push(BuildStep::RequireInputs);
                assert(steps_view(steps@) =~= staged + seq![StepView::RequireInputs]);
            } else {
                steps.push(BuildStep::ClearDir { path: paths.out_dir.clone() });
                assert(steps_view(steps@) =~= staged + seq![
                    StepView::ClearDir { path: pv.out_dir },
                ]);
                push_unpack(
                    &mut steps,
                    &package.fetch,
                    paths.fetch_dir.as_str(),
                    paths.out_dir.as_str(),
                );
                push_finish(&mut steps, &paths);
                assert(steps_view(steps@) =~= staged + (seq![
                    StepView::ClearDir { path: pv.out_dir },
                ] + unpack_steps(p.fetch, pv.fetch_dir, pv.out_dir) + finish_steps(pv)));
            }
            assert(steps_view(steps@) =~= untar_plan_spec(store.store_root@, p));
        },
        Recipe::Sandbox => {
            steps.push(BuildStep::ResetDir { path: paths.build_root.clone() });
            steps.push(BuildStep::MakeDir { path: paths.rootfs.clone() });
            assert(steps_view(steps@) =~= seq![
                StepView::ResetDir { path: pv.build_root },
                StepView::MakeDir { path: pv.rootfs },
            ]);
            let installed = install_order(graph, idx);
            proof {
                assert forall|k: int| 0 <= k < installed@.len() implies (
                #[trigger] installed@[k]) < graph@.len() by {
                    assert(installed@[k] < idx);
                }
            }
            push_extract(&mut steps, store, graph, &installed, paths.rootfs.as_str());
            push_dirs(&mut steps, &paths);
            proof {
                assert(crate::graph::node_wf(graph@, idx as int));
            }
            push_store(&mut steps, store, graph, &package.build_deps, paths.store_dir.as_str());
            push_stage(&mut steps, &package.fetch, paths.fetch_dir.as_str());
            let ghost staged = steps_view(steps@);
            if !package.build.as_str().is_empty() {
                let name = script_file_name(package.hash.as_str(), process);
                let host_path = join_path(paths.build_root.as_str(), name.as_str());
                let sandbox = build_sandbox(
                    paths.rootfs.as_str(),
                    host_path.as_str(),
                    parallelism,
                    term,
                );
                let text = script_text(package.build.as_str());
                steps.push(BuildStep::RunScript { host_path, text, sandbox });
                assert(steps_view(steps@) =~= staged + script_steps(
                    pv,
                    p,
                    parallelism,
                    opt_view(term),
                    process,
                ));
            } else {
                assert(steps_view(steps@) =~= staged + script_steps(
                    pv,
                    p,
                    parallelism,
                    opt_view(term),
                    process,
                ));
            }
            push_finish(&mut steps, &paths);
            assert(steps_view(steps@) =~= sandbox_plan_spec(
                store.store_root@,
                graph@,
                idx,
                parallelism,
                opt_view(term),
                process,
            ));
        },
    }
    steps
}

/// The build of one package: what is locked, what is handed out, and the
/// steps that make the artifact where there is none.
#[derive(Debug)]
pub struct PackageBuild {
    /// The package, by its index in the graph.
    pub package: usize,
    /// The artifact of the package.
    pub artifact: String,
    /// The lock under which the package is built.
    pub lock: String,
    /// The steps for an artifact that is there: artifact and lock are touched.
    pub reuse: Vec<BuildStep>,
    /// The steps of the build, for an artifact that is not there.
    pub steps: Vec<BuildStep>,
}

/// The parallelism that builds are given: at least one.
pub open spec fn parallelism_spec(parallelism: usize) -> usize {
    if parallelism < 1 {
        1
    } else {
        parallelism
    }
}

/// The build at place `k` of the builds of `roots` is that of the package
/// at place `k` of the build order.
pub open spec fn build_ok(
    store_root: Seq<char>,
    nodes: Seq<PackageView>,
    order: Seq<usize>,
    k: int,
    b: PackageBuild,
    parallelism: usize,
    term: Option<Seq<char>>,
    process: u32,
) -> bool {
    let p = nodes[order[k] as int];
    &&& b.package == order[k]
    &&& b.artifact@ == artifact_spec(store_root, p)
    &&& b.lock@ == join_spec(store_root, base_name_spec(p.name, p.hash) + ".lock"@)
    &&& steps_view(b.reuse@) == seq![
        StepView::Touch { path: b.artifact@ },
        StepView::Touch { path: b.lock@ },
    ]
    &&& steps_view(b.steps@) == plan_spec(
        store_root,
        nodes,
        order[k],
        parallelism_spec(parallelism),
        term,
        process,
    )
}

impl PackageStore {
    /// Lays out the builds of `roots` and of all they depend on: one
    /// build for each package, every dependency before its dependents. Who
    /// carries them out takes each package's lock, hands out the artifact
    /// where it is there, and goes through the steps where it is not.
    pub fn build_packages(
        &self,
        graph: &PackageGraph,
        roots: &Vec<usize>,
        parallelism: usize,
        term: Option<String>,
        process: u32,
    ) -> (builds: Vec<PackageBuild>)
        requires
            graph.wf(),
            all_below(roots@, graph@.len() as int),
        ensures
            builds@.len() == closure_spec(graph@, DepOrder::RunThenBuild, roots@).len(),
            forall|k: int|
                0 <= k < builds@.len() ==> build_ok(
                    self.store_root@,
                    graph@,
                    closure_spec(graph@, DepOrder::RunThenBuild, roots@),
                    k,
                    #[trigger] builds@[k],
                    parallelism,
                    opt_view(term),
                    process,
                ),
    {
        let parallelism = effective_parallelism(parallelism);
        let order = build_order(graph, roots);
        let mut builds: Vec<PackageBuild> = Vec::new();
        let mut i: usize = 0;
        while i < order.len()
            invariant
                i <= order@.len(),
                graph.wf(),
                all_below(order@, graph@.len() as int),
                parallelism == parallelism_spec(parallelism),
                builds@.len() == i,
                forall|k: int|
                    0 <= k < i ==> build_ok(
                        self.store_root@,
                        graph@,
                        order@,
                        k,
                        #[trigger] builds@[k],
                        parallelism,
                        opt_view(term),
                        process,
                    ),
            decreases order@.len() - i,
        {
            let package = order[i];
            let node = &graph.nodes[package];
            let term_copy = match &term {
                Some(t) => Some(t.clone()),
                None => None,
            };
            let steps = plan_build(self, graph, package, parallelism, term_copy, process);
            let artifact = self.package_artifact_path(node);
            let lock = self.package_lock_path(node);
            let mut reuse: Vec<BuildStep> = Vec::new();
            reuse.push(BuildStep::Touch { path: artifact.clone() });
            reuse.push(BuildStep::Touch { path: lock.clone() });
            assert(steps_view(reuse@) =~= seq![
                StepView::Touch { path: artifact@ },
                StepView::Touch { path: lock@ },
            ]);
            builds.push(PackageBuild { package, artifact, lock, reuse, steps });
            i = i + 1;
        }
        builds
    }
}

/// One fetch resource to bring into the cache: fetch number `fetch` of package `package`.
#[derive(Clone, Copy, Debug, PartialEq, Eq, Structural)]
pub struct FetchJob {
    pub package: usize,
    pub fetch: usize,
}

/// The fetch resources of package `package`, in order.
pub open spec fn package_jobs(package: usize, count: nat) -> Seq<FetchJob> {
    Seq::new(count, |i: int| FetchJob { package, fetch: i as usize })
}

/// The fetch resources of the first `n` packages of `order` that are
/// fetched ahead of a build: all of a package, unless only missing
/// packages are asked for and the package's artifact is there.
pub open spec fn fetch_jobs_spec(
    nodes: Seq<PackageView>,
    order: Seq<usize>,
    missing_only: bool,
    built: Seq<bool>,
    n: int,
) -> Seq<FetchJob>
    decreases n,
{
    if n <= 0 {
        Seq::empty()
    } else {
        let before = fetch_jobs_spec(nodes, order, missing_only, built, n - 1);
        let p = order[n - 1];
        if missing_only && built[p as int] {
            before
        } else {
            before + package_jobs(p, nodes[p as int].fetch.len())
        }
    }
}

impl PackageStore {
    /// Lays out the fetching of sources ahead of a build: the fetch
    /// resources of `roots` and of all they depend on, package by package
    /// in breadth-first order. `built` says of each package of the graph
    /// whether its artifact is there; with `missing_only`, the packages
    /// that are built are left out.
    pub fn fetch_packages(
        &self,
        graph: &PackageGraph,
        roots: &Vec<usize>,
        missing_only: bool,
        built: &Vec<bool>,
    ) -> (jobs: Vec<FetchJob>)
        requires
            graph.wf(),
            all_below(roots@, graph@.len() as int),
            built@.len() == graph@.len(),
        ensures
            jobs@ == fetch_jobs_spec(
                graph@,
                reach_spec(graph@, roots@),
                missing_only,
                built@,
                reach_spec(graph@, roots@).len() as int,
            ),
    {
        let order = breadth_first(graph, roots);
        let mut jobs: Vec<FetchJob> = Vec::new();
        let mut i: usize = 0;
        while i < order.len()
            invariant
                i <= order@.len(),
                all_below(order@, graph@.len() as int),
                built@.len() == graph@.len(),
                jobs@ == fetch_jobs_spec(graph@, order@, missing_only, built@, i as int),
            decreases order@.len() - i,
        {
            let package = order[i];
            let count = graph.nodes[package].fetch.len();
            let ghost before = jobs@;
            if needs_fetch(missing_only, built[package], count) {
                let mut k: usize = 0;
                while k < count
                    invariant
                        k <= count,
                        count == graph@[package as int].fetch.len(),
                        jobs@ == before + package_jobs(package, k as nat),
                    decreases count - k,
                {
                    jobs.push(FetchJob { package, fetch: k });
                    k = k + 1;
                    assert(jobs@ =~= before + package_jobs(package, k as nat));
                }
            } else {
                assert(jobs@ =~= before + package_jobs(package, 0));
                if count == 0 {
                    assert(before + package_jobs(package, count as nat) =~= before);
                }
            }
            i = i + 1;
        }
        jobs
    }
}

} // verus!
