//! What the sandbox executor is told: the filesystem bindings, the
//! environment and the command of a build.

use vstd::prelude::*;
use crate::error::{MagError, MagErrorView};
use crate::store::opt_view;
use crate::text::{chars_of, concat2, concat3, decimal, decimal_spec};

verus! {

/// The kinds of filesystem bindings of a sandbox.
#[derive(Clone, Copy, Debug, PartialEq, Eq, Structural)]
pub enum MountKind {
    /// A writable bind of a host path.
    Bind,
    /// A read-only bind of a host path.
    RoBind,
    /// A bind of a host path that lets device files through.
    DevBind,
    /// A fresh `proc` filesystem.
    Proc,
    /// A fresh temporary filesystem.
    Tmpfs,
}

/// One filesystem binding of a sandbox.
#[derive(Debug)]
pub struct MountSpec {
    pub kind: MountKind,
    /// The host path, for the kinds that bind one.
    pub source: Option<String>,
    /// The path inside the sandbox.
    pub target: String,
    /// Whether the binding is left out when the host path is missing.
    pub optional: bool,
}

/// The mathematical value of a [`MountSpec`].
pub struct MountView {
    pub kind: MountKind,
    pub source: Option<Seq<char>>,
    pub target: Seq<char>,
    pub optional: bool,
}

impl View for MountSpec {
    type V = MountView;

    open spec fn view(&self) -> MountView {
        MountView {
            kind: self.kind,
            source: opt_view(self.source),
            target: self.target@,
            optional: self.optional,
        }
    }
}

/// The values of a list of bindings.
pub open spec fn mounts_view(v: Seq<MountSpec>) -> Seq<MountView> {
    Seq::new(v.len(), |i: int| v[i]@)
}

/// The value of an optional string slice.
pub open spec fn opt_str_view(s: Option<&str>) -> Option<Seq<char>> {
    match s {
        Some(t) => Some(t@),
        None => None,
    }
}

/// A binding of the given kind from `source` to `target`.
pub fn mount_spec(kind: MountKind, source: Option<&str>, target: &str, optional: bool) -> (m:
    MountSpec)
    ensures
        m@ == (MountView {
            kind,
            source: opt_str_view(source),
            target: target@,
            optional,
        }),
{
    let source = match source {
        Some(s) => Some(String::from_str(s)),
        None => None,
    };
    MountSpec { kind, source, target: String::from_str(target), optional }
}

/// A binding that must be there.
pub open spec fn fixed_mount(kind: MountKind, source: Option<Seq<char>>, target: Seq<char>) -> MountView {
    MountView { kind, source, target, optional: false }
}

/// The bindings of an interactive environment: devices, `proc`, `sys`
/// read-only, the resolver's files read-only, and the host's `/tmp`.
pub open spec fn default_mounts_spec() -> Seq<MountView> {
    seq![
        fixed_mount(MountKind::DevBind, Some("/dev"@), "/dev"@),
        fixed_mount(MountKind::Proc, None, "/proc"@),
        fixed_mount(MountKind::RoBind, Some("/sys"@), "/sys"@),
        fixed_mount(MountKind::RoBind, Some("/etc/resolv.conf"@), "/etc/resolv.conf"@),
        fixed_mount(MountKind::RoBind, Some("/etc/hosts"@), "/etc/hosts"@),
        fixed_mount(MountKind::Bind, Some("/tmp"@), "/tmp"@),
    ]
}

/// The bindings of an interactive environment.
pub fn default_mounts() -> (out: Vec<MountSpec>)
    ensures
        mounts_view(out@) == default_mounts_spec(),
{
    let mut out: Vec<MountSpec> = Vec::new();
    out.push(mount_spec(MountKind::DevBind, Some("/dev"), "/dev", false));
    out.push(mount_spec(MountKind::Proc, None, "/proc", false));
    out.push(mount_spec(MountKind::RoBind, Some("/sys"), "/sys", false));
    out.push(mount_spec(MountKind::RoBind, Some("/etc/resolv.conf"), "/etc/resolv.conf", false));
    out.push(mount_spec(MountKind::RoBind, Some("/etc/hosts"), "/etc/hosts", false));
    out.push(mount_spec(MountKind::Bind, Some("/tmp"), "/tmp", false));
    assert(mounts_view(out@) =~= default_mounts_spec());
    out
}

/// The path inside the sandbox at which the build script is bound.
pub open spec fn script_target() -> Seq<char> {
    "/tmp/.magpkg-build-script"@
}

/// The bindings of a build: the assembled root as `/`, the host's devices,
/// a fresh `proc`, and the build script read-only at a fixed path.
pub open spec fn build_mounts_spec(rootfs: Seq<char>, script: Seq<char>) -> Seq<MountView> {
    seq![
        fixed_mount(MountKind::Bind, Some(rootfs), "/"@),
        fixed_mount(MountKind::DevBind, Some("/dev"@), "/dev"@),
        fixed_mount(MountKind::Proc, None, "/proc"@),
        fixed_mount(MountKind::RoBind, Some(script), script_target()),
    ]
}

/// One variable of the environment.
#[derive(Debug)]
pub struct EnvVar {
    pub name: String,
    pub value: String,
}

/// The values of a list of variables.
pub open spec fn env_view(v: Seq<EnvVar>) -> Seq<(Seq<char>, Seq<char>)> {
    Seq::new(v.len(), |i: int| (v[i].name@, v[i].value@))
}

/// The search path inside the sandbox.
pub open spec fn build_path() -> Seq<char> {
    "/usr/bin:/bin:/store/bin:/store/sbin:/usr/sbin:/sbin"@
}

/// The environment of a build, and nothing else of the host's: the
/// search path, the shell twice, the parallelism, the home directory, and
/// the terminal type where the host has one.
pub open spec fn build_env_spec(parallelism: usize, term: Option<Seq<char>>) -> Seq<
    (Seq<char>, Seq<char>),
> {
    let fixed = seq![
        ("PATH"@, build_path()),
        ("SHELL"@, "/bin/sh"@),
        ("CONFIG_SHELL"@, "/bin/sh"@),
        ("BUILD_PARALLELISM"@, decimal_spec(parallelism as nat)),
        ("HOME"@, "/build"@),
    ];
    match term {
        Some(t) => fixed.push(("TERM"@, t)),
        None => fixed,
    }
}

/// Everything the sandbox executor is told about one build.
#[derive(Debug)]
pub struct SandboxSpec {
    /// The filesystem bindings, in order.
    pub mounts: Vec<MountSpec>,
    /// Whether the host's environment is cleared before `env` is set.
    pub clear_env: bool,
    /// The environment.
    pub env: Vec<EnvVar>,
    /// Whether the sandbox is cut off from the network.
    pub unshare_net: bool,
    /// The working directory inside the sandbox.
    pub cwd: String,
    /// The command and its arguments.
    pub command: Vec<String>,
}

fn env_var(name: &str, value: &str) -> (v: EnvVar)
    ensures
        v.name@ == name@,
        v.value@ == value@,
{
    EnvVar { name: String::from_str(name), value: String::from_str(value) }
}

/// The parallelism that builds are given: at least one.
pub fn effective_parallelism(parallelism: usize) -> (n: usize)
    ensures
        n == if parallelism < 1 {
            1
        } else {
            parallelism
        },
{
    if parallelism < 1 {
        1
    } else {
        parallelism
    }
}

/// What the sandbox executor is told for the build whose root is `rootfs`
/// and whose script lies at `script` on the host: the bindings and the
/// environment above, no network, the working directory `/build`, and the
/// shell run on the script.
pub fn build_sandbox(rootfs: &str, script: &str, parallelism: usize, term: Option<String>) -> (s:
    SandboxSpec)
    ensures
        mounts_view(s.mounts@) == build_mounts_spec(rootfs@, script@),
        env_view(s.env@) == build_env_spec(parallelism, opt_view(term)),
        s.clear_env,
        s.unshare_net,
        s.cwd@ == "/build"@,
        crate::package::strings_view(s.command@) == seq!["/bin/sh"@, script_target()],
{
    let mut mounts: Vec<MountSpec> = Vec::new();
    mounts.push(mount_spec(MountKind::Bind, Some(rootfs), "/", false));
    mounts.push(mount_spec(MountKind::DevBind, Some("/dev"), "/dev", false));
    mounts.push(mount_spec(MountKind::Proc, None, "/proc", false));
    mounts.push(mount_spec(MountKind::RoBind, Some(script), "/tmp/.magpkg-build-script", false));
    assert(mounts_view(mounts@) =~= build_mounts_spec(rootfs@, script@));
    let digits = decimal(parallelism as u64);
    let mut env: Vec<EnvVar> = Vec::new();
    env.push(env_var("PATH", "/usr/bin:/bin:/store/bin:/store/sbin:/usr/sbin:/sbin"));
    env.push(env_var("SHELL", "/bin/sh"));
    env.push(env_var("CONFIG_SHELL", "/bin/sh"));
    env.push(env_var("BUILD_PARALLELISM", digits.as_str()));
    env.push(env_var("HOME", "/build"));
    match term {
        Some(t) => {
            env.push(EnvVar { name: String::from_str("TERM"), value: t });
        },
        None => {},
    }
    assert(env_view(env@) =~= build_env_spec(parallelism, opt_view(term)));
    let mut command: Vec<String> = Vec::new();
    command.push(String::from_str("/bin/sh"));
    command.push(String::from_str("/tmp/.magpkg-build-script"));
    assert(crate::package::strings_view(command@) =~= seq!["/bin/sh"@, script_target()]);
    SandboxSpec {
        mounts,
        clear_env: true,
        env,
        unshare_net: true,
        cwd: String::from_str("/build"),
        command,
    }
}

/// The text of the script file: the script, closed by a line break.
pub open spec fn script_text_spec(script: Seq<char>) -> Seq<char> {
    if script.len() > 0 && script.last() == '\n' {
        script
    } else {
        script.push('\n')
    }
}

/// The text written to the script file of a build.
pub fn script_text(script: &str) -> (out: String)
    ensures
        out@ == script_text_spec(script@),
{
    let v = chars_of(script);
    if v.len() > 0 && v[v.len() - 1] == '\n' {
        String::from_str(script)
    } else {
        let mut out = String::from_str(script);
        crate::text::push_char(&mut out, '\n');
        out
    }
}

/// The name of the script file of a build, next to the root of the build.
pub fn script_file_name(hash: &str, process: u32) -> (out: String)
    ensures
        out@ == ".magpkg-build-script-"@ + hash@ + "-"@ + decimal_spec(process as nat),
{
    let digits = decimal(process as u64);
    let mut out = concat3(".magpkg-build-script-", hash, "-");
    out.append(digits.as_str());
    out
}

/// How a build script ended: well with the status zero, else as a failed
/// command with its status, or with -1 where a signal ended it.
pub open spec fn exit_outcome_spec(base: Seq<char>, status: Option<i32>) -> Result<
    (),
    MagErrorView,
> {
    match status {
        Some(code) => if code == 0 {
            Ok(())
        } else {
            Err(
                MagErrorView::CommandFailure {
                    context: "build script for "@ + base,
                    status: code as int,
                },
            )
        },
        None => Err(
            MagErrorView::CommandFailure { context: "build script for "@ + base, status: -1 },
        ),
    }
}

/// Judges how the build script of the package `base` ended.
pub fn exit_outcome(base: &str, status: Option<i32>) -> (r: Result<(), MagError>)
    ensures
        match r {
            Ok(_) => exit_outcome_spec(base@, status) == Ok::<(), MagErrorView>(()),
            Err(e) => exit_outcome_spec(base@, status) == Err::<(), _>(e@),
        },
{
    let code: i32 = match status {
        Some(c) => c,
        None => -1,
    };
    if code == 0 && status.is_some() {
        Ok(())
    } else {
        Err(MagError::CommandFailure { context: concat2("build script for ", base), status: code })
    }
}

} // verus!
