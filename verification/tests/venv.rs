use magpkg::builder::PackageGraphBuilder;
use magpkg::error::MagError;
use magpkg::manifest::{Field, Manifest, ManifestValue, Slot};
use magpkg::sandbox::MountKind;
use magpkg::venv::{
    mount_kind, parse_mode, path_is_absolute, quote_jsonnet_string, read_filesystem_entries,
    read_mounts, read_optional_bool, read_string_map, FsEntryKind, VenvSpec,
};

fn s(text: &str) -> Slot {
    Slot::Value(ManifestValue::Str(text.to_string()))
}

fn fields(list: Vec<(&str, Slot)>) -> Vec<Field> {
    list.into_iter().map(|(name, slot)| Field { name: name.to_string(), slot }).collect()
}

fn evaluation(error: MagError) -> (String, String) {
    match error {
        MagError::Evaluation { context, message } => (context, message),
        other => panic!("expected an evaluation error, got {other:?}"),
    }
}

fn defect(context: &str, message: &str) -> (String, String) {
    (context.to_string(), message.to_string())
}

#[test]
fn modes_are_octal_or_decimal() {
    assert_eq!(parse_mode("0755"), Some(0o755));
    assert_eq!(parse_mode("0o755"), Some(0o755));
    assert_eq!(parse_mode("0O644"), Some(0o644));
    assert_eq!(parse_mode("  0700\n"), Some(0o700));
    assert_eq!(parse_mode("493"), Some(493));
    assert_eq!(parse_mode("+493"), Some(493));
    assert_eq!(parse_mode("0"), Some(0));
    assert_eq!(parse_mode("00"), Some(0));
    assert_eq!(parse_mode("0o+7"), Some(7));
    assert_eq!(parse_mode("4294967295"), Some(u32::MAX));
    assert_eq!(parse_mode("037777777777"), Some(u32::MAX));
}

#[test]
fn texts_that_write_no_mode_are_refused() {
    assert_eq!(parse_mode(""), None);
    assert_eq!(parse_mode("   "), None);
    assert_eq!(parse_mode("+"), None);
    assert_eq!(parse_mode("0o"), None);
    assert_eq!(parse_mode("0x1ff"), None);
    assert_eq!(parse_mode("0789"), None);
    assert_eq!(parse_mode("-1"), None);
    assert_eq!(parse_mode("7 5 5"), None);
    assert_eq!(parse_mode("rwx"), None);
    assert_eq!(parse_mode("4294967296"), None);
    assert_eq!(parse_mode("040000000000"), None);
    assert_eq!(parse_mode("99999999999999999999999999"), None);
    assert_eq!(parse_mode("++1"), None);
}

#[test]
fn mount_kinds_have_their_names() {
    assert_eq!(mount_kind("bind"), Some(MountKind::Bind));
    assert_eq!(mount_kind("ro-bind"), Some(MountKind::RoBind));
    assert_eq!(mount_kind("dev-bind"), Some(MountKind::DevBind));
    assert_eq!(mount_kind("proc"), Some(MountKind::Proc));
    assert_eq!(mount_kind("tmpfs"), Some(MountKind::Tmpfs));
    assert_eq!(mount_kind("Bind"), None);
    assert_eq!(mount_kind(""), None);
    assert!(path_is_absolute("/"));
    assert!(path_is_absolute("/a/b"));
    assert!(!path_is_absolute("a/b"));
    assert!(!path_is_absolute(""));
}

#[test]
fn optional_booleans_are_read() {
    let object = fields(vec![
        ("yes", Slot::Value(ManifestValue::Bool(true))),
        ("no", Slot::Value(ManifestValue::Bool(false))),
        ("null", Slot::Value(ManifestValue::Null)),
        ("text", s("true")),
        ("broken", Slot::Failed("boom".to_string())),
    ]);
    assert_eq!(read_optional_bool(&object, "yes", "$").unwrap(), Some(true));
    assert_eq!(read_optional_bool(&object, "no", "$").unwrap(), Some(false));
    assert_eq!(read_optional_bool(&object, "null", "$").unwrap(), None);
    assert_eq!(read_optional_bool(&object, "absent", "$").unwrap(), None);
    assert_eq!(
        evaluation(read_optional_bool(&object, "text", "$").unwrap_err()),
        defect("$.text", "expected a boolean, got Str")
    );
    assert_eq!(
        evaluation(read_optional_bool(&object, "broken", "$").unwrap_err()),
        defect("$.broken", "boom")
    );
}

fn mounts_manifest(items: Vec<Slot>, objects: Vec<Vec<Field>>) -> Manifest {
    let mut all = vec![fields(vec![("mounts", Slot::Value(ManifestValue::Arr(0)))])];
    all.extend(objects);
    Manifest { arrays: vec![items], objects: all }
}

#[test]
fn mounts_are_read_in_order() {
    let m = mounts_manifest(
        vec![
            s("/home/me"),
            Slot::Value(ManifestValue::Obj(1)),
            Slot::Value(ManifestValue::Obj(2)),
            Slot::Value(ManifestValue::Obj(3)),
        ],
        vec![
            fields(vec![
                ("type", s("ro-bind")),
                ("source", s("/etc/ssl")),
                ("target", s("/etc/ssl")),
                ("optional", Slot::Value(ManifestValue::Bool(true))),
            ]),
            fields(vec![("type", s("tmpfs")), ("target", s("/run")), ("source", s("ignored"))]),
            fields(vec![("type", s("proc")), ("target", s("/proc"))]),
        ],
    );
    assert!(m.well_formed());
    let mounts = read_mounts(&m, &m.objects[0], "$").unwrap();
    assert_eq!(mounts.len(), 4);
    assert_eq!(mounts[0].kind, MountKind::Bind);
    assert_eq!(mounts[0].source.as_deref(), Some("/home/me"));
    assert_eq!(mounts[0].target, "/home/me");
    assert!(!mounts[0].optional);
    assert_eq!(mounts[1].kind, MountKind::RoBind);
    assert_eq!(mounts[1].source.as_deref(), Some("/etc/ssl"));
    assert!(mounts[1].optional);
    assert_eq!(mounts[2].kind, MountKind::Tmpfs);
    assert_eq!(mounts[2].source, None);
    assert_eq!(mounts[2].target, "/run");
    assert!(!mounts[2].optional);
    assert_eq!(mounts[3].kind, MountKind::Proc);
}

#[test]
fn absent_mounts_are_none() {
    let m = Manifest {
        arrays: vec![],
        objects: vec![fields(vec![]), fields(vec![("mounts", Slot::Value(ManifestValue::Null))])],
    };
    assert!(read_mounts(&m, &m.objects[0], "$").unwrap().is_empty());
    assert!(read_mounts(&m, &m.objects[1], "$").unwrap().is_empty());
    assert!(read_filesystem_entries(&m, &m.objects[0], "$").unwrap().is_empty());
}

fn mount_defect(items: Vec<Slot>, objects: Vec<Vec<Field>>) -> (String, String) {
    let m = mounts_manifest(items, objects);
    assert!(m.well_formed());
    evaluation(read_mounts(&m, &m.objects[0], "$").unwrap_err())
}

#[test]
fn defects_of_mounts_are_named_with_their_place() {
    assert_eq!(
        mount_defect(vec![s("/ok"), s("relative")], vec![]),
        defect("$.mounts[1]", "shorthand mounts must use absolute paths")
    );
    assert_eq!(
        mount_defect(vec![Slot::Value(ManifestValue::Num)], vec![]),
        defect("$.mounts[0]", "expected an object or a string, got Num")
    );
    assert_eq!(
        mount_defect(vec![Slot::Failed("boom".to_string())], vec![]),
        defect("$.mounts[0]", "boom")
    );
    let item = || vec![Slot::Value(ManifestValue::Obj(1))];
    assert_eq!(
        mount_defect(item(), vec![fields(vec![("target", s("/x"))])]),
        defect("$.mounts[0].type", "missing required field")
    );
    assert_eq!(
        mount_defect(item(), vec![fields(vec![("type", s("overlay")), ("target", s("/x"))])]),
        defect("$.mounts[0].type", "unsupported mount type 'overlay'")
    );
    assert_eq!(
        mount_defect(item(), vec![fields(vec![("type", s("bind")), ("source", s("/x"))])]),
        defect("$.mounts[0].target", "missing required field")
    );
    assert_eq!(
        mount_defect(item(), vec![fields(vec![("type", s("bind")), ("target", s("/x"))])]),
        defect("$.mounts[0].source", "missing required field")
    );
    assert_eq!(
        mount_defect(
            item(),
            vec![fields(vec![("type", s("proc")), ("target", s("/proc")), ("optional", s("no"))])]
        ),
        defect("$.mounts[0].optional", "expected a boolean, got Str")
    );
    let m = Manifest { arrays: vec![], objects: vec![fields(vec![("mounts", s("/x"))])] };
    assert_eq!(
        evaluation(read_mounts(&m, &m.objects[0], "$").unwrap_err()),
        defect("$.mounts", "expected an array of objects, got Str")
    );
}

fn entries_manifest(objects: Vec<Vec<Field>>) -> Manifest {
    let items = (1..=objects.len()).map(|o| Slot::Value(ManifestValue::Obj(o))).collect();
    let mut all = vec![fields(vec![("fsEntries", Slot::Value(ManifestValue::Arr(0)))])];
    all.extend(objects);
    Manifest { arrays: vec![items], objects: all }
}

#[test]
fn filesystem_entries_are_read_in_order() {
    let m = entries_manifest(vec![
        fields(vec![("type", s("dir")), ("path", s("/etc")), ("mode", s("0755"))]),
        fields(vec![("type", s("file")), ("path", s("/etc/motd")), ("contents", s("hi\n"))]),
        fields(vec![("type", s("file")), ("path", s("/etc/empty")), ("mode", s("420"))]),
        fields(vec![("type", s("symlink")), ("path", s("/bin/sh")), ("target", s("dash"))]),
    ]);
    assert!(m.well_formed());
    let entries = read_filesystem_entries(&m, &m.objects[0], "$").unwrap();
    assert_eq!(entries.len(), 4);
    assert_eq!(entries[0].kind, FsEntryKind::Dir);
    assert_eq!(entries[0].path, "/etc");
    assert_eq!(entries[0].mode, Some(0o755));
    assert_eq!(entries[0].contents, None);
    assert_eq!(entries[1].kind, FsEntryKind::File);
    assert_eq!(entries[1].mode, None);
    assert_eq!(entries[1].contents.as_deref(), Some("hi\n"));
    assert_eq!(entries[2].contents, None);
    assert_eq!(entries[2].mode, Some(0o644));
    assert_eq!(entries[3].kind, FsEntryKind::Symlink);
    assert_eq!(entries[3].target.as_deref(), Some("dash"));
    assert_eq!(entries[3].contents, None);
}

fn entry_defect(object: Vec<(&str, Slot)>) -> (String, String) {
    let m = entries_manifest(vec![fields(object)]);
    assert!(m.well_formed());
    evaluation(read_filesystem_entries(&m, &m.objects[0], "$").unwrap_err())
}

#[test]
fn defects_of_filesystem_entries_are_named_with_their_place() {
    assert_eq!(
        entry_defect(vec![("path", s("/x"))]),
        defect("$.fsEntries[0].type", "missing required field")
    );
    assert_eq!(
        entry_defect(vec![("type", s("dir"))]),
        defect("$.fsEntries[0].path", "missing required field")
    );
    assert_eq!(
        entry_defect(vec![("type", s("dir")), ("path", s("etc"))]),
        defect("$.fsEntries[0].path", "path must be absolute, got etc")
    );
    assert_eq!(
        entry_defect(vec![
            ("type", s("dir")),
            ("path", s("/etc")),
            ("mode", Slot::Value(ManifestValue::Num))
        ]),
        defect("$.fsEntries[0].mode", "mode must be provided as a string (e.g. \"0755\")")
    );
    assert_eq!(
        entry_defect(vec![("type", s("dir")), ("path", s("/etc")), ("mode", s(" rwx "))]),
        defect("$.fsEntries[0].mode", "mode must be a valid integer, got rwx")
    );
    assert_eq!(
        entry_defect(vec![
            ("type", s("dir")),
            ("path", s("/etc")),
            ("mode", Slot::Value(ManifestValue::Bool(true)))
        ]),
        defect("$.fsEntries[0].mode", "expected a string, got Bool")
    );
    assert_eq!(
        entry_defect(vec![
            ("type", s("file")),
            ("path", s("/f")),
            ("contents", Slot::Value(ManifestValue::Arr(0)))
        ]),
        defect("$.fsEntries[0].contents", "expected a string, got Arr")
    );
    assert_eq!(
        entry_defect(vec![("type", s("symlink")), ("path", s("/l"))]),
        defect("$.fsEntries[0].target", "missing required field")
    );
    assert_eq!(
        entry_defect(vec![("type", s("socket")), ("path", s("/s"))]),
        defect("$.fsEntries[0].type", "unsupported fs entry type 'socket'")
    );
    let m = Manifest { arrays: vec![vec![s("/x")]], objects: vec![fields(vec![(
        "fsEntries",
        Slot::Value(ManifestValue::Arr(0)),
    )])] };
    assert_eq!(
        evaluation(read_filesystem_entries(&m, &m.objects[0], "$").unwrap_err()),
        defect("$.fsEntries[0]", "expected an object, got Str")
    );
}

#[test]
fn string_maps_are_read_in_the_order_of_their_fields() {
    let m = Manifest {
        arrays: vec![],
        objects: vec![
            fields(vec![
                ("envSet", Slot::Value(ManifestValue::Obj(1))),
                ("none", Slot::Value(ManifestValue::Null)),
                ("wrong", s("text")),
                ("mixed", Slot::Value(ManifestValue::Obj(2))),
                ("broken", Slot::Value(ManifestValue::Obj(3))),
            ]),
            fields(vec![("PATH", s("/bin")), ("LANG", s("C")), ("PATH", s("/usr/bin"))]),
            fields(vec![("A", s("1")), ("B", Slot::Value(ManifestValue::Num))]),
            fields(vec![("A", Slot::Failed("boom".to_string()))]),
        ],
    };
    assert!(m.well_formed());
    let root = &m.objects[0];
    assert_eq!(
        read_string_map(&m, root, "envSet", "$").unwrap(),
        vec![("PATH".to_string(), "/bin".to_string()), ("LANG".to_string(), "C".to_string())]
    );
    assert!(read_string_map(&m, root, "none", "$").unwrap().is_empty());
    assert!(read_string_map(&m, root, "absent", "$").unwrap().is_empty());
    assert_eq!(
        evaluation(read_string_map(&m, root, "wrong", "$").unwrap_err()),
        defect("$.wrong", "expected an object of strings, got Str")
    );
    assert_eq!(
        evaluation(read_string_map(&m, root, "mixed", "$").unwrap_err()),
        defect("$.mixed.B", "expected a string, got Num")
    );
    assert_eq!(
        evaluation(read_string_map(&m, root, "broken", "$").unwrap_err()),
        defect("$.broken.A", "boom")
    );
}

#[test]
fn manifest_strings_are_quoted() {
    assert_eq!(quote_jsonnet_string(""), "\"\"");
    assert_eq!(quote_jsonnet_string("/home/me/env.jsonnet"), "\"/home/me/env.jsonnet\"");
    assert_eq!(quote_jsonnet_string("a\"b"), "\"a\\\"b\"");
    assert_eq!(quote_jsonnet_string("a\\b"), "\"a\\\\b\"");
    assert_eq!(quote_jsonnet_string("a\nb\rc\td"), "\"a\\nb\\rc\\td\"");
    assert_eq!(quote_jsonnet_string("\u{0}\u{1}\u{1f}"), "\"\\u0000\\u0001\\u001f\"");
    assert_eq!(quote_jsonnet_string("\u{7f}\u{80}\u{9f}"), "\"\\u007f\\u0080\\u009f\"");
    assert_eq!(quote_jsonnet_string("\u{a0}é日本 '"), "\"\u{a0}é日本 '\"");
}

fn venv_manifest(root: Vec<(&str, Slot)>) -> Manifest {
    Manifest {
        arrays: vec![
            vec![Slot::Value(ManifestValue::Obj(1)), Slot::Value(ManifestValue::Obj(2))],
            vec![s("HOME"), s("TERM")],
            vec![s("/data")],
            vec![Slot::Value(ManifestValue::Obj(4))],
            vec![],
        ],
        objects: vec![
            fields(root),
            fields(vec![("name", s("shell")), ("build", s("make shell"))]),
            fields(vec![("name", s("tools")), ("build", s("make tools"))]),
            fields(vec![("EDITOR", s("vi"))]),
            fields(vec![("type", s("dir")), ("path", s("/work")), ("mode", s("0700"))]),
        ],
    }
}

#[test]
fn an_environment_is_read_with_its_packages() {
    let m = venv_manifest(vec![
        ("packages", Slot::Value(ManifestValue::Arr(0))),
        ("envKeep", Slot::Value(ManifestValue::Arr(1))),
        ("envSet", Slot::Value(ManifestValue::Obj(3))),
        ("mountDefaults", Slot::Value(ManifestValue::Bool(false))),
        ("mounts", Slot::Value(ManifestValue::Arr(2))),
        ("fsEntries", Slot::Value(ManifestValue::Arr(3))),
    ]);
    assert!(m.well_formed());
    let mut builder = PackageGraphBuilder::new();
    let venv = VenvSpec::from_value(&m, &ManifestValue::Obj(0), &mut builder).unwrap();
    assert_eq!(venv.packages, vec![0, 1]);
    assert_eq!(builder.graph.nodes.len(), 2);
    assert_eq!(builder.graph.nodes[0].name.as_deref(), Some("shell"));
    assert_eq!(venv.env_keep, vec!["HOME".to_string(), "TERM".to_string()]);
    assert_eq!(venv.env_set, vec![("EDITOR".to_string(), "vi".to_string())]);
    assert!(!venv.use_default_mounts);
    assert_eq!(venv.mounts.len(), 1);
    assert_eq!(venv.mounts[0].target, "/data");
    assert_eq!(venv.fs_entries.len(), 1);
    assert_eq!(venv.fs_entries[0].mode, Some(0o700));
}

#[test]
fn an_environment_takes_its_defaults() {
    let m = venv_manifest(vec![("packages", Slot::Value(ManifestValue::Obj(2)))]);
    let mut builder = PackageGraphBuilder::new();
    let venv = VenvSpec::from_value(&m, &ManifestValue::Obj(0), &mut builder).unwrap();
    assert_eq!(venv.packages, vec![0]);
    assert!(venv.env_keep.is_empty());
    assert!(venv.env_set.is_empty());
    assert!(venv.use_default_mounts);
    assert!(venv.mounts.is_empty());
    assert!(venv.fs_entries.is_empty());
}

fn venv_defect(root: Vec<(&str, Slot)>, value: ManifestValue) -> (String, String) {
    let m = venv_manifest(root);
    assert!(m.well_formed());
    let mut builder = PackageGraphBuilder::new();
    evaluation(VenvSpec::from_value(&m, &value, &mut builder).unwrap_err())
}

#[test]
fn defects_of_an_environment_are_named_with_their_place() {
    assert_eq!(
        venv_defect(vec![], ManifestValue::Arr(4)),
        defect("$", "expected an object, got Arr")
    );
    assert_eq!(
        venv_defect(vec![("envKeep", Slot::Value(ManifestValue::Arr(1)))], ManifestValue::Obj(0)),
        defect("$.packages", "missing required field")
    );
    assert_eq!(
        venv_defect(vec![("packages", Slot::Value(ManifestValue::Arr(4)))], ManifestValue::Obj(0)),
        defect("$.packages", "must not be empty")
    );
    assert_eq!(
        venv_defect(vec![("packages", Slot::Failed("boom".to_string()))], ManifestValue::Obj(0)),
        defect("$.packages", "boom")
    );
    assert_eq!(
        venv_defect(vec![("packages", Slot::Value(ManifestValue::Null))], ManifestValue::Obj(0)),
        defect("$", "package definitions must be Jsonnet objects")
    );
    assert_eq!(
        venv_defect(
            vec![("packages", Slot::Value(ManifestValue::Obj(1))), ("envKeep", s("HOME"))],
            ManifestValue::Obj(0)
        ),
        defect("$.envKeep", "expected an array of strings, got Str")
    );
    assert_eq!(
        venv_defect(
            vec![("packages", Slot::Value(ManifestValue::Obj(1))), ("mountDefaults", s("no"))],
            ManifestValue::Obj(0)
        ),
        defect("$.mountDefaults", "expected a boolean, got Str")
    );
    assert_eq!(
        venv_defect(
            vec![
                ("packages", Slot::Value(ManifestValue::Obj(1))),
                ("mounts", Slot::Value(ManifestValue::Arr(1)))
            ],
            ManifestValue::Obj(0)
        ),
        defect("$.mounts[0]", "shorthand mounts must use absolute paths")
    );
}
