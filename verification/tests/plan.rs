use magpkg::graph::PackageGraph;
use magpkg::package::{compute_hash, FetchResource, Package};
use magpkg::plan::{plan_build, BuildStep};
use magpkg::sandbox::MountKind;
use magpkg::store::PackageStore;

fn package(
    name: &str,
    build: &str,
    fetch: Vec<FetchResource>,
    run_deps: Vec<usize>,
    build_deps: Vec<usize>,
    graph: &PackageGraph,
) -> Package {
    let hashes = |deps: &Vec<usize>| -> Vec<String> {
        deps.iter().map(|d| graph.nodes[*d].hash.clone()).collect()
    };
    let hash = compute_hash(build, &fetch, &hashes(&run_deps), &hashes(&build_deps));
    Package { name: Some(name.to_string()), build: build.to_string(), hash, run_deps, build_deps, fetch }
}

fn fetch(filename: &str) -> FetchResource {
    FetchResource { filename: filename.to_string(), sha256: "00".to_string(), urls: Vec::new() }
}

fn show(step: &BuildStep) -> String {
    match step {
        BuildStep::ResetDir { path } => format!("reset {path}"),
        BuildStep::MakeDir { path } => format!("mkdir {path}"),
        BuildStep::EnsureDir { path } => format!("ensure {path}"),
        BuildStep::ClearDir { path } => format!("clear {path}"),
        BuildStep::Extract { package, artifact, dest } => {
            format!("extract #{package} {artifact} -> {dest}")
        }
        BuildStep::Stage { index, dest } => format!("stage #{index} -> {dest}"),
        BuildStep::RequireInputs => "require inputs".to_string(),
        BuildStep::Unpack { archive, dest } => format!("unpack {archive} -> {dest}"),
        BuildStep::RunScript { host_path, text, .. } => format!("run {host_path} {text:?}"),
        BuildStep::Pack { source, temp, dest } => format!("pack {source} -> {temp} -> {dest}"),
        BuildStep::Touch { path } => format!("touch {path}"),
        BuildStep::RemoveDir { path } => format!("remove {path}"),
    }
}

fn plan(graph: &PackageGraph, index: usize) -> Vec<String> {
    assert!(graph.well_formed());
    let store = PackageStore::at("/s".to_string());
    plan_build(&store, graph, index, 4, None, 77).iter().map(show).collect()
}

#[test]
fn an_unpacking_build_unpacks_the_fetch_list_in_order() {
    let mut graph = PackageGraph::new();
    let p = package("src", "untar", vec![fetch("a.tar.gz"), fetch("b.tar.zst")], vec![], vec![], &graph);
    let base = format!("src-{}", p.hash);
    graph.nodes.push(p);
    let root = format!("/s/pkgs/{base}.build");
    assert_eq!(
        plan(&graph, 0),
        vec![
            format!("reset {root}"),
            format!("clear {root}/fetch"),
            format!("clear {root}/untar-out"),
            format!("stage #0 -> {root}/fetch/a.tar.gz"),
            format!("stage #1 -> {root}/fetch/b.tar.zst"),
            format!("clear {root}/untar-out"),
            format!("unpack {root}/fetch/a.tar.gz -> {root}/untar-out"),
            format!("unpack {root}/fetch/b.tar.zst -> {root}/untar-out"),
            format!("pack {root}/untar-out -> /s/pkgs/{base}.tar.zst.tmp -> /s/pkgs/{base}.tar.zst"),
            format!("touch /s/pkgs/{base}.tar.zst"),
            format!("touch /s/pkgs/{base}.lock"),
            format!("remove {root}"),
        ]
    );
}

#[test]
fn an_unpacking_build_without_fetches_ends_early() {
    let mut graph = PackageGraph::new();
    let p = package("src", "untar", vec![], vec![], vec![], &graph);
    let base = format!("src-{}", p.hash);
    graph.nodes.push(p);
    let root = format!("/s/pkgs/{base}.build");
    assert_eq!(
        plan(&graph, 0),
        vec![
            format!("reset {root}"),
            format!("clear {root}/fetch"),
            format!("clear {root}/untar-out"),
            "require inputs".to_string(),
        ]
    );
}

/// A depends on B at run time and on C at build time; C depends on B at run time.
fn diamond() -> PackageGraph {
    let mut graph = PackageGraph::new();
    let b = package("B", "make b", vec![], vec![], vec![], &graph);
    graph.nodes.push(b);
    let c = package("C", "make c", vec![], vec![0], vec![], &graph);
    graph.nodes.push(c);
    let a = package("A", "make a", vec![fetch("a.tgz")], vec![0], vec![1], &graph);
    graph.nodes.push(a);
    graph
}

#[test]
fn a_sandboxed_build_unpacks_each_dependency_once() {
    let graph = diamond();
    let base = |i: usize| format!("{}-{}", graph.nodes[i].name.as_deref().unwrap(), graph.nodes[i].hash);
    let artifact = |i: usize| format!("/s/pkgs/{}.tar.zst", base(i));
    let root = format!("/s/pkgs/{}.build", base(2));
    let rootfs = format!("{root}/rootfs");
    let script = format!("{root}/.magpkg-build-script-{}-77", graph.nodes[2].hash);
    assert_eq!(
        plan(&graph, 2),
        vec![
            format!("reset {root}"),
            format!("mkdir {rootfs}"),
            format!("extract #0 {} -> {rootfs}", artifact(0)),
            format!("extract #1 {} -> {rootfs}", artifact(1)),
            format!("ensure {rootfs}/dev"),
            format!("ensure {rootfs}/proc"),
            format!("ensure {rootfs}/sys"),
            format!("ensure {rootfs}/tmp"),
            format!("clear {rootfs}/out"),
            format!("clear {rootfs}/fetch"),
            format!("clear {rootfs}/store"),
            format!("clear {rootfs}/build"),
            format!("reset {rootfs}/store/{}", base(1)),
            format!("extract #0 {} -> {rootfs}/store/{}", artifact(0), base(1)),
            format!("extract #1 {} -> {rootfs}/store/{}", artifact(1), base(1)),
            format!("stage #0 -> {rootfs}/fetch/a.tgz"),
            format!("run {script} \"make a\\n\""),
            format!("pack {rootfs}/out -> {}.tmp -> {}", artifact(2), artifact(2)),
            format!("touch {}", artifact(2)),
            format!("touch /s/pkgs/{}.lock", base(2)),
            format!("remove {root}"),
        ]
    );
}

#[test]
fn the_script_runs_in_the_root_that_was_assembled() {
    let graph = diamond();
    let store = PackageStore::at("/s".to_string());
    let steps = plan_build(&store, &graph, 2, 3, Some("vt100".to_string()), 9);
    let run = steps.iter().find_map(|s| match s {
        BuildStep::RunScript { host_path, sandbox, .. } => Some((host_path, sandbox)),
        _ => None,
    });
    let (host_path, sandbox) = run.unwrap();
    assert_eq!(sandbox.mounts[0].kind, MountKind::Bind);
    assert!(sandbox.mounts[0].source.as_deref().unwrap().ends_with(".build/rootfs"));
    assert_eq!(sandbox.mounts[3].source.as_deref(), Some(host_path.as_str()));
    assert_eq!(sandbox.env[3].value, "3");
    assert_eq!(sandbox.env[5].value, "vt100");
}

#[test]
fn an_empty_script_runs_nothing() {
    let mut graph = PackageGraph::new();
    let p = package("meta", "", vec![], vec![], vec![], &graph);
    graph.nodes.push(p);
    let steps = plan(&graph, 0);
    assert!(steps.iter().all(|s| !s.starts_with("run ")));
    assert!(steps.iter().any(|s| s.starts_with("pack ")));
}

#[test]
fn builds_are_laid_out_in_dependency_order() {
    let graph = diamond();
    let store = PackageStore::at("/s".to_string());
    let builds = store.build_packages(&graph, &vec![2], 0, None, 1);
    let packages: Vec<usize> = builds.iter().map(|b| b.package).collect();
    assert_eq!(packages, vec![0, 1, 2]);
    for build in &builds {
        let node = &graph.nodes[build.package];
        assert_eq!(build.artifact, store.package_artifact_path(node));
        assert_eq!(build.lock, store.package_lock_path(node));
        let reuse: Vec<String> = build.reuse.iter().map(show).collect();
        assert_eq!(reuse, vec![format!("touch {}", build.artifact), format!("touch {}", build.lock)]);
    }
    let again = store.build_packages(&graph, &vec![2], 0, None, 1);
    let artifacts = |bs: &Vec<magpkg::plan::PackageBuild>| -> Vec<String> {
        bs.iter().map(|b| b.artifact.clone()).collect()
    };
    assert_eq!(artifacts(&builds), artifacts(&again));
    let parallelism = builds[2].steps.iter().find_map(|s| match s {
        BuildStep::RunScript { sandbox, .. } => Some(sandbox.env[3].value.clone()),
        _ => None,
    });
    assert_eq!(parallelism.as_deref(), Some("1"));
}

#[test]
fn sources_are_fetched_package_by_package() {
    let mut graph = PackageGraph::new();
    let b = package("B", "untar", vec![fetch("b1"), fetch("b2")], vec![], vec![], &graph);
    graph.nodes.push(b);
    let c = package("C", "make", vec![], vec![0], vec![], &graph);
    graph.nodes.push(c);
    let a = package("A", "make", vec![fetch("a1")], vec![1], vec![0], &graph);
    graph.nodes.push(a);
    let store = PackageStore::at("/s".to_string());
    let jobs = |missing_only: bool, built: Vec<bool>| -> Vec<(usize, usize)> {
        store
            .fetch_packages(&graph, &vec![2], missing_only, &built)
            .into_iter()
            .map(|j| (j.package, j.fetch))
            .collect()
    };
    assert_eq!(jobs(false, vec![false; 3]), vec![(2, 0), (0, 0), (0, 1)]);
    assert_eq!(jobs(false, vec![true; 3]), vec![(2, 0), (0, 0), (0, 1)]);
    assert_eq!(jobs(true, vec![true, false, false]), vec![(2, 0)]);
    assert_eq!(jobs(true, vec![false, false, true]), vec![(0, 0), (0, 1)]);
    assert_eq!(jobs(true, vec![true; 3]), Vec::<(usize, usize)>::new());
}

#[test]
fn a_build_dependency_listed_twice_is_unpacked_once() {
    let mut graph = PackageGraph::new();
    let tool = package("tool", "make tool", vec![], vec![], vec![], &graph);
    graph.nodes.push(tool);
    let top = package("top", "make", vec![], vec![], vec![0, 0], &graph);
    graph.nodes.push(top);
    let steps = plan(&graph, 1);
    let resets = steps.iter().filter(|s| s.starts_with("reset ") && s.contains("/store/")).count();
    assert_eq!(resets, 1);
    let into_store =
        steps.iter().filter(|s| s.starts_with("extract ") && s.contains("/store/")).count();
    assert_eq!(into_store, 1);
}
