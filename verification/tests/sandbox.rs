use magpkg::sandbox::{
    build_sandbox, default_mounts, effective_parallelism, exit_outcome, mount_spec,
    script_file_name, script_text, MountKind,
};
use magpkg::error::MagError;

#[test]
fn the_build_sandbox_binds_root_devices_proc_and_script() {
    let spec = build_sandbox("/s/pkgs/x.build/rootfs", "/s/pkgs/x.build/script", 8, None);
    let mounts: Vec<(MountKind, Option<&str>, &str, bool)> = spec
        .mounts
        .iter()
        .map(|m| (m.kind, m.source.as_deref(), m.target.as_str(), m.optional))
        .collect();
    assert_eq!(
        mounts,
        vec![
            (MountKind::Bind, Some("/s/pkgs/x.build/rootfs"), "/", false),
            (MountKind::DevBind, Some("/dev"), "/dev", false),
            (MountKind::Proc, None, "/proc", false),
            (MountKind::RoBind, Some("/s/pkgs/x.build/script"), "/tmp/.magpkg-build-script", false),
        ]
    );
    assert!(spec.unshare_net);
    assert!(spec.clear_env);
    assert_eq!(spec.cwd, "/build");
    assert_eq!(spec.command, vec!["/bin/sh".to_string(), "/tmp/.magpkg-build-script".to_string()]);
}

#[test]
fn the_build_environment_holds_only_what_is_injected() {
    let env = |term: Option<&str>| -> Vec<(String, String)> {
        build_sandbox("/r", "/s", 12, term.map(|t| t.to_string()))
            .env
            .into_iter()
            .map(|v| (v.name, v.value))
            .collect()
    };
    let pair = |a: &str, b: &str| (a.to_string(), b.to_string());
    let fixed = vec![
        pair("PATH", "/usr/bin:/bin:/store/bin:/store/sbin:/usr/sbin:/sbin"),
        pair("SHELL", "/bin/sh"),
        pair("CONFIG_SHELL", "/bin/sh"),
        pair("BUILD_PARALLELISM", "12"),
        pair("HOME", "/build"),
    ];
    assert_eq!(env(None), fixed);
    let mut with_term = fixed.clone();
    with_term.push(pair("TERM", "xterm"));
    assert_eq!(env(Some("xterm")), with_term);
}

#[test]
fn parallelism_is_at_least_one() {
    assert_eq!(effective_parallelism(0), 1);
    assert_eq!(effective_parallelism(1), 1);
    assert_eq!(effective_parallelism(16), 16);
}

#[test]
fn scripts_end_with_a_line_break() {
    assert_eq!(script_text("make"), "make\n");
    assert_eq!(script_text("make\n"), "make\n");
    assert_eq!(script_text(""), "\n");
    assert_eq!(script_file_name("abc", 4242), ".magpkg-build-script-abc-4242");
}

#[test]
fn a_nonzero_status_is_a_command_failure() {
    assert!(exit_outcome("hello-abc", Some(0)).is_ok());
    match exit_outcome("hello-abc", Some(2)) {
        Err(MagError::CommandFailure { context, status }) => {
            assert_eq!(context, "build script for hello-abc");
            assert_eq!(status, 2);
        }
        other => panic!("{other:?}"),
    }
    assert_eq!(
        exit_outcome("hello-abc", None).unwrap_err().message(),
        "build script for hello-abc failed with status -1"
    );
    assert_eq!(
        exit_outcome("p", Some(-7)).unwrap_err().message(),
        "build script for p failed with status -7"
    );
    assert_eq!(
        exit_outcome("p", Some(i32::MIN)).unwrap_err().message(),
        format!("build script for p failed with status {}", i32::MIN)
    );
}

#[test]
fn default_mounts_of_an_interactive_environment() {
    let mounts: Vec<(MountKind, Option<String>, String)> =
        default_mounts().into_iter().map(|m| (m.kind, m.source, m.target)).collect();
    let s = |t: &str| Some(t.to_string());
    assert_eq!(
        mounts,
        vec![
            (MountKind::DevBind, s("/dev"), "/dev".to_string()),
            (MountKind::Proc, None, "/proc".to_string()),
            (MountKind::RoBind, s("/sys"), "/sys".to_string()),
            (MountKind::RoBind, s("/etc/resolv.conf"), "/etc/resolv.conf".to_string()),
            (MountKind::RoBind, s("/etc/hosts"), "/etc/hosts".to_string()),
            (MountKind::Bind, s("/tmp"), "/tmp".to_string()),
        ]
    );
    let m = mount_spec(MountKind::Tmpfs, None, "/tmp", true);
    assert_eq!(m.kind, MountKind::Tmpfs);
    assert_eq!(m.source, None);
    assert_eq!(m.target, "/tmp");
    assert!(m.optional);
}
