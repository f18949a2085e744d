use magpkg::builder::PackageGraphBuilder;
use magpkg::closure::{build_order, compute_runtime_closure, install_order};
use magpkg::coordinator::breadth_first;
use magpkg::digest::sha256_hex;
use magpkg::error::MagError;
use magpkg::manifest::{Field, Manifest, ManifestValue, Slot};
use magpkg::package::package_base_name;

fn s(text: &str) -> Slot {
    Slot::Value(ManifestValue::Str(text.to_string()))
}

fn arr(id: usize) -> Slot {
    Slot::Value(ManifestValue::Arr(id))
}

fn obj(id: usize) -> Slot {
    Slot::Value(ManifestValue::Obj(id))
}

fn fields(list: Vec<(&str, Slot)>) -> Vec<Field> {
    list.into_iter().map(|(name, slot)| Field { name: name.to_string(), slot }).collect()
}

fn build(m: &Manifest, root: ManifestValue) -> (PackageGraphBuilder, Result<Vec<usize>, MagError>) {
    assert!(m.well_formed());
    let mut builder = PackageGraphBuilder::new();
    let result = builder.packages_from_value(m, &root);
    (builder, result)
}

fn message(result: Result<Vec<usize>, MagError>) -> String {
    result.unwrap_err().message()
}

#[test]
fn single_package_gets_its_hash_and_base_name() {
    let script = "mkdir -p /out/bin && echo hi > /out/bin/hello";
    let m = Manifest {
        arrays: vec![vec![], vec![], vec![]],
        objects: vec![fields(vec![
            ("name", s("hello")),
            ("build", s(script)),
            ("fetch", arr(0)),
            ("runDeps", arr(1)),
            ("buildDeps", arr(2)),
        ])],
    };
    let (builder, result) = build(&m, ManifestValue::Obj(0));
    assert_eq!(result.unwrap(), vec![0]);
    let package = &builder.graph.nodes[0];
    let mut text = b"build:".to_vec();
    text.extend_from_slice(script.as_bytes());
    text.extend_from_slice(b"\0fetch\0\0run\0\0build\0");
    assert_eq!(package.hash, sha256_hex(&text));
    assert_eq!(package.name.as_deref(), Some("hello"));
    assert_eq!(package.build, script);
    assert_eq!(package_base_name(package), format!("hello-{}", package.hash));
}

#[test]
fn building_twice_gives_the_same_base_names() {
    let m = Manifest {
        arrays: vec![vec![obj(1)]],
        objects: vec![
            fields(vec![("name", s("top")), ("build", s("make")), ("runDeps", arr(0))]),
            fields(vec![("name", s("dep")), ("build", s("cc"))]),
        ],
    };
    let (first, r1) = build(&m, ManifestValue::Obj(0));
    let (second, r2) = build(&m, ManifestValue::Obj(0));
    assert_eq!(r1.unwrap(), r2.unwrap());
    let names = |b: &PackageGraphBuilder| -> Vec<String> {
        b.graph.nodes.iter().map(package_base_name).collect()
    };
    assert_eq!(names(&first), names(&second));
}

#[test]
fn missing_fields_take_their_defaults() {
    let m = Manifest { arrays: vec![], objects: vec![fields(vec![])] };
    let (builder, result) = build(&m, ManifestValue::Obj(0));
    assert_eq!(result.unwrap(), vec![0]);
    let package = &builder.graph.nodes[0];
    assert_eq!(package.name, None);
    assert_eq!(package.build, "");
    assert!(package.fetch.is_empty());
    assert!(package.run_deps.is_empty());
    assert!(package.build_deps.is_empty());
    assert_eq!(package.hash, sha256_hex(b"build:\0fetch\0\0run\0\0build\0"));
    assert_eq!(package_base_name(package), format!("pkg-{}", package.hash));
}

#[test]
fn null_fields_take_their_defaults() {
    let null = || Slot::Value(ManifestValue::Null);
    let m = Manifest {
        arrays: vec![],
        objects: vec![fields(vec![
            ("name", null()),
            ("build", null()),
            ("fetch", null()),
            ("runDeps", null()),
            ("buildDeps", null()),
        ])],
    };
    let (builder, result) = build(&m, ManifestValue::Obj(0));
    assert_eq!(result.unwrap(), vec![0]);
    assert_eq!(builder.graph.nodes[0].hash, sha256_hex(b"build:\0fetch\0\0run\0\0build\0"));
}

#[test]
fn array_manifest_gives_roots_in_order() {
    let m = Manifest {
        arrays: vec![vec![obj(0), obj(1), obj(0)]],
        objects: vec![fields(vec![("build", s("a"))]), fields(vec![("build", s("b"))])],
    };
    let (builder, result) = build(&m, ManifestValue::Arr(0));
    assert_eq!(result.unwrap(), vec![0, 1, 0]);
    assert_eq!(builder.graph.nodes.len(), 2);
}

#[test]
fn equal_content_is_one_package() {
    let m = Manifest {
        arrays: vec![vec![obj(0), obj(1)]],
        objects: vec![
            fields(vec![("name", s("A")), ("build", s("same"))]),
            fields(vec![("name", s("B")), ("build", s("same"))]),
        ],
    };
    let (builder, result) = build(&m, ManifestValue::Arr(0));
    assert_eq!(result.unwrap(), vec![0, 0]);
    assert_eq!(builder.graph.nodes.len(), 1);
    assert_eq!(builder.graph.nodes[0].name.as_deref(), Some("A"));
}

#[test]
fn names_do_not_enter_the_hash() {
    let a = Manifest { arrays: vec![], objects: vec![fields(vec![("name", s("A")), ("build", s("x"))])] };
    let b = Manifest { arrays: vec![], objects: vec![fields(vec![("name", s("B")), ("build", s("x"))])] };
    let (ga, ra) = build(&a, ManifestValue::Obj(0));
    let (gb, rb) = build(&b, ManifestValue::Obj(0));
    ra.unwrap();
    rb.unwrap();
    let pa = &ga.graph.nodes[0];
    let pb = &gb.graph.nodes[0];
    assert_eq!(pa.hash, pb.hash);
    assert_ne!(package_base_name(pa), package_base_name(pb));
    assert_eq!(package_base_name(pa), format!("A-{}", pa.hash));
    assert_eq!(package_base_name(pb), format!("B-{}", pb.hash));
}

#[test]
fn the_graph_keeps_packages_of_earlier_manifests() {
    let m = Manifest { arrays: vec![], objects: vec![fields(vec![("build", s("x"))])] };
    let n = Manifest { arrays: vec![], objects: vec![fields(vec![("build", s("y"))])] };
    let mut builder = PackageGraphBuilder::new();
    assert_eq!(builder.packages_from_value(&m, &ManifestValue::Obj(0)).unwrap(), vec![0]);
    assert_eq!(builder.packages_from_value(&n, &ManifestValue::Obj(0)).unwrap(), vec![1]);
    assert_eq!(builder.packages_from_value(&m, &ManifestValue::Obj(0)).unwrap(), vec![0]);
    assert_eq!(builder.graph.nodes.len(), 2);
}

/// A depends on B at run time and on C at build time; C depends on B.
fn diamond() -> Manifest {
    Manifest {
        arrays: vec![vec![obj(1)], vec![obj(2)], vec![obj(1)]],
        objects: vec![
            fields(vec![("name", s("A")), ("runDeps", arr(0)), ("buildDeps", arr(1))]),
            fields(vec![("name", s("B")), ("build", s("b"))]),
            fields(vec![("name", s("C")), ("build", s("c")), ("runDeps", arr(2))]),
        ],
    }
}

#[test]
fn dependencies_stand_before_dependents_in_the_graph() {
    let (builder, result) = build(&diamond(), ManifestValue::Obj(0));
    let roots = result.unwrap();
    let names: Vec<&str> =
        builder.graph.nodes.iter().map(|p| p.name.as_deref().unwrap()).collect();
    assert_eq!(names, vec!["B", "C", "A"]);
    assert_eq!(roots, vec![2]);
    let a = &builder.graph.nodes[2];
    assert_eq!(a.run_deps, vec![0]);
    assert_eq!(a.build_deps, vec![1]);
    assert_eq!(builder.graph.nodes[1].run_deps, vec![0]);
    let b_hash = builder.graph.nodes[0].hash.clone();
    let c_hash = builder.graph.nodes[1].hash.clone();
    let mut text = b"build:\0fetch\0\0run\0".to_vec();
    text.extend_from_slice(b_hash.as_bytes());
    text.extend_from_slice(b"\0build\0");
    text.extend_from_slice(c_hash.as_bytes());
    assert_eq!(a.hash, sha256_hex(&text));
}

#[test]
fn build_order_has_each_package_once_after_its_dependencies() {
    let (builder, result) = build(&diamond(), ManifestValue::Obj(0));
    let roots = result.unwrap();
    let order = build_order(&builder.graph, &roots);
    assert_eq!(order, vec![0, 1, 2]);
    let twice = build_order(&builder.graph, &vec![2, 2, 1]);
    assert_eq!(twice, vec![0, 1, 2]);
    assert_eq!(build_order(&builder.graph, &Vec::new()), Vec::<usize>::new());
}

#[test]
fn install_order_unpacks_each_dependency_once() {
    let (builder, result) = build(&diamond(), ManifestValue::Obj(0));
    result.unwrap();
    assert_eq!(install_order(&builder.graph, 2), vec![0, 1]);
    assert_eq!(install_order(&builder.graph, 1), vec![0]);
    assert_eq!(install_order(&builder.graph, 0), Vec::<usize>::new());
}

#[test]
fn runtime_closure_follows_run_dependencies_only() {
    let (builder, result) = build(&diamond(), ManifestValue::Obj(0));
    result.unwrap();
    assert_eq!(compute_runtime_closure(&builder.graph, &vec![2]), vec![0, 2]);
    assert_eq!(compute_runtime_closure(&builder.graph, &vec![1]), vec![0, 1]);
}

#[test]
fn breadth_first_reaches_everything_once() {
    let (builder, result) = build(&diamond(), ManifestValue::Obj(0));
    result.unwrap();
    assert_eq!(breadth_first(&builder.graph, &vec![2]), vec![2, 0, 1]);
    assert_eq!(breadth_first(&builder.graph, &vec![1, 2]), vec![1, 2, 0]);
}

#[test]
fn order_of_dependencies_changes_the_hash() {
    let manifest = |first: usize, second: usize| Manifest {
        arrays: vec![vec![obj(first), obj(second)]],
        objects: vec![
            fields(vec![("runDeps", arr(0))]),
            fields(vec![("build", s("b"))]),
            fields(vec![("build", s("c"))]),
        ],
    };
    let (one, r1) = build(&manifest(1, 2), ManifestValue::Obj(0));
    let (two, r2) = build(&manifest(2, 1), ManifestValue::Obj(0));
    let top1 = r1.unwrap()[0];
    let top2 = r2.unwrap()[0];
    assert_ne!(one.graph.nodes[top1].hash, two.graph.nodes[top2].hash);
}

#[test]
fn urls_do_not_change_the_hash() {
    let manifest = |url: &str| Manifest {
        arrays: vec![vec![obj(1)], vec![s(url)]],
        objects: vec![
            fields(vec![("build", s("untar")), ("fetch", arr(0))]),
            fields(vec![("filename", s("x.tar.gz")), ("sha256", s("00ff")), ("urls", arr(1))]),
        ],
    };
    let (one, r1) = build(&manifest("https://example/x.tar.gz"), ManifestValue::Obj(0));
    let (two, r2) = build(&manifest("file:///tmp/x.tar.gz"), ManifestValue::Obj(0));
    r1.unwrap();
    r2.unwrap();
    assert_eq!(one.graph.nodes[0].hash, two.graph.nodes[0].hash);
    assert_eq!(one.graph.nodes[0].fetch[0].urls, vec!["https://example/x.tar.gz".to_string()]);
    assert_eq!(
        one.graph.nodes[0].hash,
        sha256_hex(b"build:untar\0fetch\0x.tar.gz\x0000ff\0\0run\0\0build\0")
    );
}

#[test]
fn a_package_that_depends_on_itself_is_a_cycle() {
    let m = Manifest {
        arrays: vec![vec![obj(0)]],
        objects: vec![fields(vec![("name", s("loop")), ("runDeps", arr(0))])],
    };
    let (builder, result) = build(&m, ManifestValue::Obj(0));
    assert!(matches!(result, Err(MagError::DependencyCycle)));
    assert!(builder.graph.nodes.is_empty());
}

#[test]
fn a_cycle_through_several_packages_is_found() {
    let m = Manifest {
        arrays: vec![vec![obj(1)], vec![obj(2)], vec![obj(0)]],
        objects: vec![
            fields(vec![("runDeps", arr(0))]),
            fields(vec![("buildDeps", arr(1))]),
            fields(vec![("runDeps", arr(2))]),
        ],
    };
    let (_, result) = build(&m, ManifestValue::Obj(0));
    assert_eq!(message(result), "dependency cycle detected");
}

#[test]
fn a_cycle_behind_a_built_dependency_is_found() {
    let m = Manifest {
        arrays: vec![vec![obj(1), obj(2)], vec![obj(0)]],
        objects: vec![
            fields(vec![("runDeps", arr(0))]),
            fields(vec![("build", s("fine"))]),
            fields(vec![("buildDeps", arr(1))]),
        ],
    };
    let (builder, result) = build(&m, ManifestValue::Obj(0));
    assert!(matches!(result, Err(MagError::DependencyCycle)));
    assert_eq!(builder.graph.nodes.len(), 1);
}

#[test]
fn a_defect_behind_the_cycle_is_not_read() {
    let m = Manifest {
        arrays: vec![vec![obj(1), obj(0), obj(2), s("no package")]],
        objects: vec![
            fields(vec![("name", s("root")), ("runDeps", arr(0)), ("build", Slot::Value(ManifestValue::Num))]),
            fields(vec![("name", s("fine")), ("build", s("make"))]),
            fields(vec![("name", s(""))]),
        ],
    };
    let (builder, result) = build(&m, ManifestValue::Obj(0));
    assert!(matches!(result, Err(MagError::DependencyCycle)));
    assert_eq!(builder.graph.nodes.len(), 1);
}

#[test]
fn a_cycle_through_build_dependencies_behind_a_defect_not_read_is_found() {
    let m = Manifest {
        arrays: vec![vec![obj(1)], vec![obj(0), obj(2)], vec![]],
        objects: vec![
            fields(vec![("runDeps", arr(2)), ("buildDeps", arr(0)), ("fetch", s("no list"))]),
            fields(vec![("buildDeps", arr(1))]),
            fields(vec![("name", s("bad/name"))]),
        ],
    };
    let (_, result) = build(&m, ManifestValue::Arr(0));
    assert!(matches!(result, Err(MagError::DependencyCycle)));
    let (_, result) = build(&m, ManifestValue::Obj(0));
    assert!(matches!(result, Err(MagError::DependencyCycle)));
}

#[test]
fn an_earlier_defect_hides_a_cycle() {
    let m = Manifest {
        arrays: vec![vec![obj(0)]],
        objects: vec![fields(vec![("name", s("")), ("runDeps", arr(0))])],
    };
    let (_, result) = build(&m, ManifestValue::Obj(0));
    assert_eq!(message(result), "$.name: package name must not be empty when provided");
}

#[test]
fn roots_must_be_objects() {
    let m = Manifest { arrays: vec![vec![s("x")]], objects: vec![] };
    let (_, result) = build(&m, ManifestValue::Str("x".to_string()));
    assert_eq!(message(result), "$: package definitions must be Jsonnet objects");
    let (_, result) = build(&m, ManifestValue::Arr(0));
    assert_eq!(message(result), "$[0]: package definitions must be Jsonnet objects");
}

#[test]
fn failed_items_are_evaluation_errors() {
    let m = Manifest {
        arrays: vec![
            vec![obj(0), obj(0), Slot::Failed("boom".to_string())],
            vec![obj(0), Slot::Failed("bang".to_string())],
        ],
        objects: vec![fields(vec![]), fields(vec![("runDeps", arr(1))])],
    };
    let (_, result) = build(&m, ManifestValue::Arr(0));
    match result {
        Err(MagError::Evaluation { context, message }) => {
            assert_eq!(context, "$[2]");
            assert_eq!(message, "boom");
        }
        other => panic!("{other:?}"),
    }
    let (_, result) = build(&m, ManifestValue::Obj(1));
    match result {
        Err(MagError::Evaluation { context, message }) => {
            assert_eq!(context, "$.runDeps[1]");
            assert_eq!(message, "bang");
        }
        other => panic!("{other:?}"),
    }
}

#[test]
fn failed_fields_are_evaluation_errors() {
    let m = Manifest {
        arrays: vec![],
        objects: vec![fields(vec![("build", Slot::Failed("no build".to_string()))])],
    };
    let (_, result) = build(&m, ManifestValue::Obj(0));
    assert_eq!(message(result), "$.build: no build");
}

#[test]
fn wrong_types_are_named() {
    let num = || Slot::Value(ManifestValue::Num);
    let cases: Vec<(Vec<(&str, Slot)>, &str)> = vec![
        (vec![("name", num())], "$.name: expected a string, got Num"),
        (vec![("name", s("a/b"))], "$.name: package name must not contain '/' characters"),
        (vec![("build", Slot::Value(ManifestValue::Bool(true)))], "$.build: expected a string, got Bool"),
        (vec![("runDeps", s("x"))], "$.runDeps: expected an array of packages, got Str"),
        (vec![("buildDeps", obj(0))], "$.buildDeps: expected an array of packages, got Obj"),
        (vec![("fetch", Slot::Value(ManifestValue::Func))], "$.fetch: expected an array of objects, got Func"),
        (vec![("runDeps", arr(0))], "$.runDeps[0]: package definitions must be Jsonnet objects"),
    ];
    for (list, expected) in cases {
        let m = Manifest { arrays: vec![vec![num()]], objects: vec![fields(list)] };
        let (_, result) = build(&m, ManifestValue::Obj(0));
        assert_eq!(message(result), expected);
    }
}

#[test]
fn fetch_lists_are_checked_item_by_item() {
    let num = || Slot::Value(ManifestValue::Num);
    let with_fetch = |item: Vec<(&str, Slot)>, urls: Vec<Slot>| Manifest {
        arrays: vec![vec![obj(1)], urls],
        objects: vec![fields(vec![("fetch", arr(0))]), fields(item)],
    };
    let cases: Vec<(Manifest, &str)> = vec![
        (with_fetch(vec![], vec![]), "$.fetch[0].filename: missing required field"),
        (
            with_fetch(vec![("filename", s("f"))], vec![]),
            "$.fetch[0].sha256: missing required field",
        ),
        (
            with_fetch(vec![("filename", num())], vec![]),
            "$.fetch[0].filename: expected a string, got Num",
        ),
        (
            with_fetch(vec![("filename", s("f")), ("sha256", s("d")), ("urls", s("u"))], vec![]),
            "$.fetch[0].urls: expected an array of strings, got Str",
        ),
        (
            with_fetch(
                vec![("filename", s("f")), ("sha256", s("d")), ("urls", arr(1))],
                vec![s("ok"), num()],
            ),
            "$.fetch[0].urls[1]: expected a string, got Num",
        ),
        (
            with_fetch(
                vec![("filename", s("f")), ("sha256", s("d")), ("urls", arr(1))],
                vec![Slot::Failed("late".to_string())],
            ),
            "$.fetch[0].urls[0]: late",
        ),
    ];
    for (m, expected) in cases {
        let (_, result) = build(&m, ManifestValue::Obj(0));
        assert_eq!(message(result), expected);
    }
    let not_object = Manifest {
        arrays: vec![vec![s("x")]],
        objects: vec![fields(vec![("fetch", arr(0))])],
    };
    let (_, result) = build(&not_object, ManifestValue::Obj(0));
    assert_eq!(message(result), "$.fetch[0]: expected an object, got Str");
    let failed = Manifest {
        arrays: vec![vec![Slot::Failed("eval".to_string())]],
        objects: vec![fields(vec![("fetch", arr(0))])],
    };
    let (_, result) = build(&failed, ManifestValue::Obj(0));
    assert_eq!(message(result), "$.fetch[0]: eval");
}

#[test]
fn fetch_without_urls_is_read() {
    let m = Manifest {
        arrays: vec![vec![obj(1)]],
        objects: vec![
            fields(vec![("fetch", arr(0))]),
            fields(vec![("filename", s("f")), ("sha256", s("d"))]),
        ],
    };
    let (builder, result) = build(&m, ManifestValue::Obj(0));
    result.unwrap();
    let fetch = &builder.graph.nodes[0].fetch[0];
    assert_eq!(fetch.filename, "f");
    assert_eq!(fetch.sha256, "d");
    assert!(fetch.urls.is_empty());
}

#[test]
fn dangling_references_are_not_well_formed() {
    assert!(Manifest::new().well_formed());
    let m = Manifest { arrays: vec![vec![obj(3)]], objects: vec![] };
    assert!(!m.well_formed());
    let m = Manifest { arrays: vec![], objects: vec![fields(vec![("runDeps", arr(0))])] };
    assert!(!m.well_formed());
}

#[test]
fn a_manifest_holds_the_values_it_names() {
    let m = Manifest { arrays: vec![vec![]], objects: vec![] };
    assert!(m.holds(&ManifestValue::Arr(0)));
    assert!(!m.holds(&ManifestValue::Arr(1)));
    assert!(!m.holds(&ManifestValue::Obj(0)));
    assert!(m.holds(&ManifestValue::Null));
}

#[test]
fn built_graphs_are_well_formed() {
    let (mut builder, result) = build(&diamond(), ManifestValue::Obj(0));
    result.unwrap();
    assert!(builder.graph.well_formed());
    builder.graph.nodes[2].build = "changed".to_string();
    assert!(!builder.graph.well_formed());
    let (mut builder, _) = build(&diamond(), ManifestValue::Obj(0));
    builder.graph.nodes[0].run_deps.push(0);
    assert!(!builder.graph.well_formed());
    let (mut builder, _) = build(&diamond(), ManifestValue::Obj(0));
    builder.graph.nodes[1].name = Some("a/b".to_string());
    assert!(!builder.graph.well_formed());
}

#[test]
fn a_defect_is_reported_with_its_path_from_the_root() {
    let m = Manifest {
        arrays: vec![vec![obj(1)], vec![obj(2), obj(3)], vec![obj(0), obj(1)]],
        objects: vec![
            fields(vec![("runDeps", arr(0))]),
            fields(vec![("buildDeps", arr(1))]),
            fields(vec![("build", s("fine"))]),
            fields(vec![("name", Slot::Value(ManifestValue::Num))]),
        ],
    };
    let (_, result) = build(&m, ManifestValue::Obj(0));
    match result {
        Err(MagError::Evaluation { context, message }) => {
            assert_eq!(context, "$.runDeps[0].buildDeps[1].name");
            assert_eq!(message, "expected a string, got Num");
        }
        other => panic!("{other:?}"),
    }
    let (_, result) = build(&m, ManifestValue::Arr(2));
    assert_eq!(
        message(result),
        "$[0].runDeps[0].buildDeps[1].name: expected a string, got Num"
    );
}
