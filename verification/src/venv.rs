//! Reading the description of an interactive environment out of a
//! manifest: its packages, the environment variables it keeps and sets,
//! the filesystem bindings and the entries that are laid out in its root
//! before it starts.

use vstd::prelude::*;
use crate::builder::{list_view, roots_spec, start_state, PackageGraphBuilder};
use crate::error::{MagError, MagErrorView};
use crate::graph::{all_below, extends};
use crate::package::{strings_view, PackageView};
use crate::manifest::{
    defect, defect_at, field_path, field_path_of, get_field, get_field_spec, item_path,
    item_path_of, root_path, shape_defect, shape_defect_at, Field, Manifest, ManifestValue, Slot,
};
use crate::reader::{
    lemma_field_value_ok, read_required_string, read_string_array, required_string_spec,
    string_array_spec,
};
use crate::sandbox::{mounts_view, MountKind, MountSpec, MountView};
use crate::store::opt_view;
use crate::transport::pairs_view;
use crate::text::{
    chars_of, concat2, concat3, hex_digit, hex_digit_char, push_char, starts_with, str_eq,
    str_starts_with, str_trim, trim_spec,
};

verus! {

/// What an optional boolean field of the object at `at` holds.
pub open spec fn optional_bool_spec(fields: Seq<Field>, field: Seq<char>, at: Seq<char>) -> Result<
    Option<bool>,
    MagErrorView,
> {
    match get_field_spec(fields, field, at) {
        Err(e) => Err(e),
        Ok(None) => Ok(None),
        Ok(Some(ManifestValue::Null)) => Ok(None),
        Ok(Some(ManifestValue::Bool(b))) => Ok(Some(b)),
        Ok(Some(other)) => Err(shape_defect(field_path(at, field), "expected a boolean"@, other)),
    }
}

/// Reads an optional boolean field of the object at `at`.
pub fn read_optional_bool(fields: &Vec<Field>, field: &str, at: &str) -> (r: Result<
    Option<bool>,
    MagError,
>)
    ensures
        match r {
            Ok(b) => optional_bool_spec(fields@, field@, at@) == Ok::<_, MagErrorView>(b),
            Err(e) => optional_bool_spec(fields@, field@, at@) == Err::<Option<bool>, _>(e@),
        },
{
    match get_field(fields, field, at) {
        Err(e) => Err(e),
        Ok(None) => Ok(None),
        Ok(Some(ManifestValue::Null)) => Ok(None),
        Ok(Some(ManifestValue::Bool(b))) => Ok(Some(*b)),
        Ok(Some(other)) => Err(
            shape_defect_at(field_path_of(at, field), "expected a boolean", other),
        ),
    }
}

/// An absolute path begins with a slash.
pub open spec fn is_absolute(path: Seq<char>) -> bool {
    path.len() > 0 && path[0] == '/'
}

/// Whether the path is absolute.
pub fn path_is_absolute(path: &str) -> (r: bool)
    ensures
        r == is_absolute(path@),
{
    let v = chars_of(path);
    v.len() > 0 && v[0] == '/'
}

/// The kind of binding that a manifest names.
pub open spec fn mount_kind_spec(name: Seq<char>) -> Option<MountKind> {
    if name == "bind"@ {
        Some(MountKind::Bind)
    } else if name == "ro-bind"@ {
        Some(MountKind::RoBind)
    } else if name == "dev-bind"@ {
        Some(MountKind::DevBind)
    } else if name == "proc"@ {
        Some(MountKind::Proc)
    } else if name == "tmpfs"@ {
        Some(MountKind::Tmpfs)
    } else {
        None
    }
}

/// The kind of binding that `name` names.
pub fn mount_kind(name: &str) -> (r: Option<MountKind>)
    ensures
        r == mount_kind_spec(name@),
{
    if str_eq(name, "bind") {
        Some(MountKind::Bind)
    } else if str_eq(name, "ro-bind") {
        Some(MountKind::RoBind)
    } else if str_eq(name, "dev-bind") {
        Some(MountKind::DevBind)
    } else if str_eq(name, "proc") {
        Some(MountKind::Proc)
    } else if str_eq(name, "tmpfs") {
        Some(MountKind::Tmpfs)
    } else {
        None
    }
}

/// Whether a binding of this kind has a host path.
pub open spec fn binds_host_path(kind: MountKind) -> bool {
    kind == MountKind::Bind || kind == MountKind::RoBind || kind == MountKind::DevBind
}

/// The complaint about a kind of binding that there is not.
pub open spec fn unsupported_mount(name: Seq<char>) -> Seq<char> {
    "unsupported mount type '"@ + name + "'"@
}

/// The binding that item `index` of the list at `at` declares. A string
/// stands for a writable bind of that absolute path onto itself; an
/// object gives the kind, the target, the host path where the kind has
/// one, and whether the binding is optional.
pub open spec fn mount_item_spec(m: &Manifest, item: Slot, at: Seq<char>, index: int) -> Result<
    MountView,
    MagErrorView,
> {
    let here = item_path(at, index);
    match item {
        Slot::Failed(message) => Err(defect(here, message@)),
        Slot::Value(ManifestValue::Str(path)) => if is_absolute(path@) {
            Ok(
                MountView {
                    kind: MountKind::Bind,
                    source: Some(path@),
                    target: path@,
                    optional: false,
                },
            )
        } else {
            Err(defect(here, "shorthand mounts must use absolute paths"@))
        },
        Slot::Value(ManifestValue::Obj(o)) => {
            let fields = m.objects@[o as int]@;
            match required_string_spec(fields, "type"@, here) {
                Err(e) => Err(e),
                Ok(name) => match optional_bool_spec(fields, "optional"@, here) {
                    Err(e) => Err(e),
                    Ok(flag) => {
                        let optional = flag == Some(true);
                        match mount_kind_spec(name) {
                            None => Err(defect(field_path(here, "type"@), unsupported_mount(name))),
                            Some(kind) => match required_string_spec(fields, "target"@, here) {
                                Err(e) => Err(e),
                                Ok(target) => if binds_host_path(kind) {
                                    match required_string_spec(fields, "source"@, here) {
                                        Err(e) => Err(e),
                                        Ok(source) => Ok(
                                            MountView {
                                                kind,
                                                source: Some(source),
                                                target,
                                                optional,
                                            },
                                        ),
                                    }
                                } else {
                                    Ok(MountView { kind, source: None, target, optional })
                                },
                            },
                        }
                    },
                },
            }
        },
        Slot::Value(other) => Err(shape_defect(here, "expected an object or a string"@, other)),
    }
}

/// The first `n` bindings of the list at `at`.
pub open spec fn mount_items_spec(m: &Manifest, items: Seq<Slot>, at: Seq<char>, n: int) -> Result<
    Seq<MountView>,
    MagErrorView,
>
    decreases n,
{
    if n <= 0 {
        Ok(Seq::empty())
    } else {
        match mount_items_spec(m, items, at, n - 1) {
            Err(e) => Err(e),
            Ok(acc) => match mount_item_spec(m, items[n - 1], at, n - 1) {
                Err(e) => Err(e),
                Ok(mount) => Ok(acc.push(mount)),
            },
        }
    }
}

/// Once a prefix of the list is rejected, the whole list is, for the same reason.
pub proof fn lemma_mount_items_err_stays(
    m: &Manifest,
    items: Seq<Slot>,
    at: Seq<char>,
    n: int,
    total: int,
)
    requires
        0 <= n <= total,
        mount_items_spec(m, items, at, n) is Err,
    ensures
        mount_items_spec(m, items, at, total) == mount_items_spec(m, items, at, n),
    decreases total - n,
{
    if n < total {
        lemma_mount_items_err_stays(m, items, at, n, total - 1);
    }
}

/// The bindings that the object at `at` declares in its field `mounts`:
/// none where the field is absent.
pub open spec fn read_mounts_spec(m: &Manifest, fields: Seq<Field>, at: Seq<char>) -> Result<
    Seq<MountView>,
    MagErrorView,
> {
    match get_field_spec(fields, "mounts"@, at) {
        Err(e) => Err(e),
        Ok(None) => Ok(Seq::empty()),
        Ok(Some(ManifestValue::Null)) => Ok(Seq::empty()),
        Ok(Some(ManifestValue::Arr(a))) => mount_items_spec(
            m,
            m.arrays@[a as int]@,
            field_path(at, "mounts"@),
            m.arrays@[a as int]@.len() as int,
        ),
        Ok(Some(other)) => Err(
            shape_defect(field_path(at, "mounts"@), "expected an array of objects"@, other),
        ),
    }
}

/// Reads item `index` of the list of bindings at `at`.
pub fn read_mount_item(m: &Manifest, item: &Slot, at: &str, index: usize) -> (r: Result<
    MountSpec,
    MagError,
>)
    requires
        m.wf(),
        m.slot_ok(*item),
    ensures
        match r {
            Ok(mount) => mount_item_spec(m, *item, at@, index as int) == Ok::<_, MagErrorView>(
                mount@,
            ),
            Err(e) => mount_item_spec(m, *item, at@, index as int) == Err::<MountView, _>(e@),
        },
{
    let here = item_path_of(at, index);
    match item {
        Slot::Failed(message) => Err(defect_at(here, message.as_str())),
        Slot::Value(ManifestValue::Str(path)) => {
            if path_is_absolute(path.as_str()) {
                Ok(
                    MountSpec {
                        kind: MountKind::Bind,
                        source: Some(path.clone()),
                        target: path.clone(),
                        optional: false,
                    },
                )
            } else {
                Err(defect_at(here, "shorthand mounts must use absolute paths"))
            }
        },
        Slot::Value(ManifestValue::Obj(o)) => {
            let fields = &m.objects[*o];
            let name = match read_required_string(fields, "type", here.as_str()) {
                Err(e) => {
                    return Err(e);
                },
                Ok(s) => s,
            };
            let optional = match read_optional_bool(fields, "optional", here.as_str()) {
                Err(e) => {
                    return Err(e);
                },
                Ok(Some(b)) => b,
                Ok(None) => false,
            };
            let kind = match mount_kind(name.as_str()) {
                None => {
                    let message = concat3("unsupported mount type '", name.as_str(), "'");
                    return Err(
                        MagError::Evaluation {
                            context: field_path_of(here.as_str(), "type"),
                            message,
                        },
                    );
                },
                Some(k) => k,
            };
            let target = match read_required_string(fields, "target", here.as_str()) {
                Err(e) => {
                    return Err(e);
                },
                Ok(s) => s,
            };
            match kind {
                MountKind::Proc | MountKind::Tmpfs => Ok(
                    MountSpec { kind, source: None, target, optional },
                ),
                _ => {
                    match read_required_string(fields, "source", here.as_str()) {
                        Err(e) => Err(e),
                        Ok(source) => Ok(MountSpec { kind, source: Some(source), target, optional }),
                    }
                },
            }
        },
        Slot::Value(other) => Err(shape_defect_at(here, "expected an object or a string", other)),
    }
}

/// Reads the bindings that the object at `at` declares.
pub fn read_mounts(m: &Manifest, fields: &Vec<Field>, at: &str) -> (r: Result<
    Vec<MountSpec>,
    MagError,
>)
    requires
        m.wf(),
        forall|k: int| 0 <= k < fields@.len() ==> m.slot_ok((#[trigger] fields@[k]).slot),
    ensures
        match r {
            Ok(v) => read_mounts_spec(m, fields@, at@) == Ok::<_, MagErrorView>(mounts_view(v@)),
            Err(e) => read_mounts_spec(m, fields@, at@) == Err::<Seq<MountView>, _>(e@),
        },
{
    match get_field(fields, "mounts", at) {
        Err(e) => Err(e),
        Ok(None) => {
            let out: Vec<MountSpec> = Vec::new();
            assert(mounts_view(out@) =~= Seq::<MountView>::empty());
            Ok(out)
        },
        Ok(Some(ManifestValue::Null)) => {
            let out: Vec<MountSpec> = Vec::new();
            assert(mounts_view(out@) =~= Seq::<MountView>::empty());
            Ok(out)
        },
        Ok(Some(ManifestValue::Arr(a))) => {
            proof {
                lemma_field_value_ok(m, fields@, "mounts"@);
            }
            let items = &m.arrays[*a];
            let here = field_path_of(at, "mounts");
            let mut out: Vec<MountSpec> = Vec::new();
            let mut i: usize = 0;
            assert(mounts_view(out@) =~= Seq::<MountView>::empty());
            while i < items.len()
                invariant
                    m.wf(),
                    *a < m.arrays@.len(),
                    items == m.arrays@[*a as int],
                    i <= items@.len(),
                    here@ == field_path(at@, "mounts"@),
                    get_field_spec(fields@, "mounts"@, at@) == Ok::<_, MagErrorView>(
                        Some(ManifestValue::Arr(*a)),
                    ),
                    mount_items_spec(m, items@, here@, i as int) == Ok::<_, MagErrorView>(
                        mounts_view(out@),
                    ),
                decreases items@.len() - i,
            {
                let ghost before = mounts_view(out@);
                proof {
                    if mount_items_spec(m, items@, here@, i + 1) is Err {
                        lemma_mount_items_err_stays(m, items@, here@, i + 1, items@.len() as int);
                    }
                }
                match read_mount_item(m, &items[i], here.as_str(), i) {
                    Err(e) => {
                        return Err(e);
                    },
                    Ok(mount) => {
                        out.push(mount);
                        assert(mounts_view(out@) =~= before.push(mount@));
                    },
                }
                i = i + 1;
            }
            Ok(out)
        },
        Ok(Some(other)) => Err(
            shape_defect_at(field_path_of(at, "mounts"), "expected an array of objects", other),
        ),
    }
}

/// The digit that `c` writes in a number to the base `radix`, which is at most ten.
pub open spec fn digit_of(c: char, radix: nat) -> Option<nat> {
    if 48 <= c as u32 && (c as u32) < 48 + radix {
        Some((c as u32 - 48) as nat)
    } else {
        None
    }
}

/// Every character is a digit to the base `radix`.
pub open spec fn all_digits(s: Seq<char>, radix: nat) -> bool {
    forall|i: int| 0 <= i < s.len() ==> digit_of(#[trigger] s[i], radix) is Some
}

/// The number that the first `n` digits write to the base `radix`.
pub open spec fn digits_value(s: Seq<char>, radix: nat, n: int) -> nat
    decreases n,
{
    if n <= 0 {
        0
    } else {
        digits_value(s, radix, n - 1) * radix + (s[n - 1] as u32 - 48) as nat
    }
}

/// The number that `s` writes to the base `radix`: digits, before which a
/// plus sign may stand, of a number that fits in 32 bits.
pub open spec fn radix_number(s: Seq<char>, radix: nat) -> Option<u32> {
    let digits = if s.len() > 0 && s[0] == '+' {
        s.subrange(1, s.len() as int)
    } else {
        s
    };
    if digits.len() == 0 || !all_digits(digits, radix) || digits_value(
        digits,
        radix,
        digits.len() as int,
    ) > u32::MAX {
        None
    } else {
        Some(digits_value(digits, radix, digits.len() as int) as u32)
    }
}

/// The permission bits that a text writes: after `0o` or `0O`, or with a
/// leading zero, an octal number; otherwise a decimal one. White space
/// around the text does not count.
pub open spec fn mode_spec(text: Seq<char>) -> Option<u32> {
    let t = trim_spec(text);
    if starts_with(t, "0o"@) || starts_with(t, "0O"@) {
        radix_number(t.subrange(2, t.len() as int), 8)
    } else if starts_with(t, "0"@) {
        radix_number(t, 8)
    } else {
        radix_number(t, 10)
    }
}

#[verifier::loop_isolation(false)]
fn parse_radix(v: &Vec<char>, from: usize, radix: u32) -> (r: Option<u32>)
    requires
        from <= v@.len(),
        2 <= radix <= 10,
    ensures
        r == radix_number(v@.subrange(from as int, v@.len() as int), radix as nat),
{
    let n: usize = v.len();
    let ghost s = v@.subrange(from as int, n as int);
    let mut start: usize = from;
    if from < n && v[from] == '+' {
        start = from + 1;
    }
    let ghost digits = v@.subrange(start as int, n as int);
    proof {
        if s.len() > 0 && s[0] == '+' {
            assert(digits =~= s.subrange(1, s.len() as int));
        } else {
            assert(digits =~= s);
        }
    }
    if start >= n {
        return None;
    }
    let mut value: u64 = 0;
    let mut over: bool = false;
    let mut i: usize = start;
    while i < n
        invariant
            start <= i <= n,
            n == v@.len(),
            digits == v@.subrange(start as int, n as int),
            2 <= radix <= 10,
            forall|k: int| 0 <= k < i - start ==> digit_of(#[trigger] digits[k], radix as nat) is Some,
            !over ==> value == digits_value(digits, radix as nat, i - start) && value <= u32::MAX,
            over ==> digits_value(digits, radix as nat, i - start) > u32::MAX,
        decreases n - i,
    {
        let code: u32 = v[i] as u32;
        assert(digits[i - start] == v@[i as int]);
        if code < 48 || code >= 48 + radix {
            assert(digit_of(digits[i - start], radix as nat) is None);
            return None;
        }
        let digit: u64 = (code - 48) as u64;
        let ghost before = digits_value(digits, radix as nat, i - start);
        assert(digits_value(digits, radix as nat, i + 1 - start) == before * (radix as nat) + digit);
        if !over {
            assert(value * (radix as u64) <= 0xffff_ffff * 10) by (nonlinear_arith)
                requires
                    value <= 0xffff_ffff,
                    radix <= 10,
            ;
            let next: u64 = value * (radix as u64) + digit;
            if next > 0xffff_ffff {
                over = true;
            } else {
                value = next;
            }
        } else {
            assert(before * (radix as nat) >= before) by (nonlinear_arith)
                requires
                    radix >= 2,
            ;
        }
        i = i + 1;
    }
    if over {
        None
    } else {
        assert(all_digits(digits, radix as nat));
        Some(value as u32)
    }
}

/// The permission bits that `text` writes.
pub fn parse_mode(text: &str) -> (r: Option<u32>)
    ensures
        r == mode_spec(text@),
{
    let trimmed = str_trim(text);
    let v = chars_of(trimmed.as_str());
    if str_starts_with(trimmed.as_str(), "0o") || str_starts_with(trimmed.as_str(), "0O") {
        proof {
            reveal_strlit("0o");
            reveal_strlit("0O");
        }
        parse_radix(&v, 2, 8)
    } else if str_starts_with(trimmed.as_str(), "0") {
        proof {
            assert(v@.subrange(0, v@.len() as int) =~= v@);
        }
        parse_radix(&v, 0, 8)
    } else {
        proof {
            assert(v@.subrange(0, v@.len() as int) =~= v@);
        }
        parse_radix(&v, 0, 10)
    }
}

/// The kinds of entries that are laid out in the root of an environment.
#[derive(Clone, Copy, Debug, PartialEq, Eq, Structural)]
pub enum FsEntryKind {
    /// A directory.
    Dir,
    /// A file with the given contents.
    File,
    /// A symbolic link to the given target.
    Symlink,
}

/// One entry that is laid out in the root of an environment.
#[derive(Debug)]
pub struct FsEntry {
    pub kind: FsEntryKind,
    /// The absolute path of the entry inside the environment.
    pub path: String,
    /// The permission bits, where the manifest gives them.
    pub mode: Option<u32>,
    /// The contents of a file, where the manifest gives them.
    pub contents: Option<String>,
    /// The target of a symbolic link.
    pub target: Option<String>,
}

/// The mathematical value of an [`FsEntry`].
pub struct FsEntryView {
    pub kind: FsEntryKind,
    pub path: Seq<char>,
    pub mode: Option<u32>,
    pub contents: Option<Seq<char>>,
    pub target: Option<Seq<char>>,
}

impl View for FsEntry {
    type V = FsEntryView;

    open spec fn view(&self) -> FsEntryView {
        FsEntryView {
            kind: self.kind,
            path: self.path@,
            mode: self.mode,
            contents: opt_view(self.contents),
            target: opt_view(self.target),
        }
    }
}

/// The values of a list of entries.
pub open spec fn entries_view(v: Seq<FsEntry>) -> Seq<FsEntryView> {
    Seq::new(v.len(), |i: int| v[i]@)
}

/// The permission bits that the object at `at` gives in its field `mode`:
/// none where the field is absent; the bits are written as a text.
pub open spec fn entry_mode_spec(fields: Seq<Field>, at: Seq<char>) -> Result<
    Option<u32>,
    MagErrorView,
> {
    let here = field_path(at, "mode"@);
    match get_field_spec(fields, "mode"@, at) {
        Err(e) => Err(e),
        Ok(None) => Ok(None),
        Ok(Some(ManifestValue::Null)) => Ok(None),
        Ok(Some(ManifestValue::Num)) => Err(
            defect(here, "mode must be provided as a string (e.g. \"0755\")"@),
        ),
        Ok(Some(ManifestValue::Str(s))) => match mode_spec(s@) {
            Some(bits) => Ok(Some(bits)),
            None => Err(defect(here, "mode must be a valid integer, got "@ + trim_spec(s@))),
        },
        Ok(Some(other)) => Err(shape_defect(here, "expected a string"@, other)),
    }
}

/// The contents that the file object at `at` gives: none where the field is absent.
pub open spec fn entry_contents_spec(fields: Seq<Field>, at: Seq<char>) -> Result<
    Option<Seq<char>>,
    MagErrorView,
> {
    match get_field_spec(fields, "contents"@, at) {
        Err(e) => Err(e),
        Ok(None) => Ok(None),
        Ok(Some(ManifestValue::Null)) => Ok(None),
        Ok(Some(ManifestValue::Str(s))) => Ok(Some(s@)),
        Ok(Some(other)) => Err(
            shape_defect(field_path(at, "contents"@), "expected a string"@, other),
        ),
    }
}

/// The complaint about a kind of entry that there is not.
pub open spec fn unsupported_entry(name: Seq<char>) -> Seq<char> {
    "unsupported fs entry type '"@ + name + "'"@
}

/// The entry that item `index` of the list at `at` declares: an object
/// that gives the kind, the absolute path, optionally the permission
/// bits, and the contents of a file or the target of a link.
pub open spec fn entry_item_spec(m: &Manifest, item: Slot, at: Seq<char>, index: int) -> Result<
    FsEntryView,
    MagErrorView,
> {
    let here = item_path(at, index);
    match item {
        Slot::Failed(message) => Err(defect(here, message@)),
        Slot::Value(ManifestValue::Obj(o)) => {
            let fields = m.objects@[o as int]@;
            match required_string_spec(fields, "type"@, here) {
                Err(e) => Err(e),
                Ok(name) => match required_string_spec(fields, "path"@, here) {
                    Err(e) => Err(e),
                    Ok(path) => if !is_absolute(path) {
                        Err(defect(field_path(here, "path"@), "path must be absolute, got "@ + path))
                    } else {
                        match entry_mode_spec(fields, here) {
                            Err(e) => Err(e),
                            Ok(mode) => if name == "dir"@ {
                                Ok(
                                    FsEntryView {
                                        kind: FsEntryKind::Dir,
                                        path,
                                        mode,
                                        contents: None,
                                        target: None,
                                    },
                                )
                            } else if name == "file"@ {
                                match entry_contents_spec(fields, here) {
                                    Err(e) => Err(e),
                                    Ok(contents) => Ok(
                                        FsEntryView {
                                            kind: FsEntryKind::File,
                                            path,
                                            mode,
                                            contents,
                                            target: None,
                                        },
                                    ),
                                }
                            } else if name == "symlink"@ {
                                match required_string_spec(fields, "target"@, here) {
                                    Err(e) => Err(e),
                                    Ok(target) => Ok(
                                        FsEntryView {
                                            kind: FsEntryKind::Symlink,
                                            path,
                                            mode,
                                            contents: None,
                                            target: Some(target),
                                        },
                                    ),
                                }
                            } else {
                                Err(defect(field_path(here, "type"@), unsupported_entry(name)))
                            },
                        }
                    },
                },
            }
        },
        Slot::Value(other) => Err(shape_defect(here, "expected an object"@, other)),
    }
}

/// The first `n` entries of the list at `at`.
pub open spec fn entry_items_spec(m: &Manifest, items: Seq<Slot>, at: Seq<char>, n: int) -> Result<
    Seq<FsEntryView>,
    MagErrorView,
>
    decreases n,
{
    if n <= 0 {
        Ok(Seq::empty())
    } else {
        match entry_items_spec(m, items, at, n - 1) {
            Err(e) => Err(e),
            Ok(acc) => match entry_item_spec(m, items[n - 1], at, n - 1) {
                Err(e) => Err(e),
                Ok(entry) => Ok(acc.push(entry)),
            },
        }
    }
}

/// Once a prefix of the list is rejected, the whole list is, for the same reason.
pub proof fn lemma_entry_items_err_stays(
    m: &Manifest,
    items: Seq<Slot>,
    at: Seq<char>,
    n: int,
    total: int,
)
    requires
        0 <= n <= total,
        entry_items_spec(m, items, at, n) is Err,
    ensures
        entry_items_spec(m, items, at, total) == entry_items_spec(m, items, at, n),
    decreases total - n,
{
    if n < total {
        lemma_entry_items_err_stays(m, items, at, n, total - 1);
    }
}

/// The entries that the object at `at` declares in its field
/// `fsEntries`: none where the field is absent.
pub open spec fn read_entries_spec(m: &Manifest, fields: Seq<Field>, at: Seq<char>) -> Result<
    Seq<FsEntryView>,
    MagErrorView,
> {
    match get_field_spec(fields, "fsEntries"@, at) {
        Err(e) => Err(e),
        Ok(None) => Ok(Seq::empty()),
        Ok(Some(ManifestValue::Null)) => Ok(Seq::empty()),
        Ok(Some(ManifestValue::Arr(a))) => entry_items_spec(
            m,
            m.arrays@[a as int]@,
            field_path(at, "fsEntries"@),
            m.arrays@[a as int]@.len() as int,
        ),
        Ok(Some(other)) => Err(
            shape_defect(field_path(at, "fsEntries"@), "expected an array of objects"@, other),
        ),
    }
}

/// Reads the permission bits that the object at `at` gives.
pub fn read_entry_mode(fields: &Vec<Field>, at: &str) -> (r: Result<Option<u32>, MagError>)
    ensures
        match r {
            Ok(mode) => entry_mode_spec(fields@, at@) == Ok::<_, MagErrorView>(mode),
            Err(e) => entry_mode_spec(fields@, at@) == Err::<Option<u32>, _>(e@),
        },
{
    match get_field(fields, "mode", at) {
        Err(e) => Err(e),
        Ok(None) => Ok(None),
        Ok(Some(ManifestValue::Null)) => Ok(None),
        Ok(Some(ManifestValue::Num)) => Err(
            defect_at(field_path_of(at, "mode"), "mode must be provided as a string (e.g. \"0755\")"),
        ),
        Ok(Some(ManifestValue::Str(s))) => match parse_mode(s.as_str()) {
            Some(bits) => Ok(Some(bits)),
            None => {
                let trimmed = str_trim(s.as_str());
                let message = concat2("mode must be a valid integer, got ", trimmed.as_str());
                Err(MagError::Evaluation { context: field_path_of(at, "mode"), message })
            },
        },
        Ok(Some(other)) => Err(shape_defect_at(field_path_of(at, "mode"), "expected a string", other)),
    }
}

/// Reads the contents that the file object at `at` gives.
pub fn read_entry_contents(fields: &Vec<Field>, at: &str) -> (r: Result<Option<String>, MagError>)
    ensures
        match r {
            Ok(c) => entry_contents_spec(fields@, at@) == Ok::<_, MagErrorView>(opt_view(c)),
            Err(e) => entry_contents_spec(fields@, at@) == Err::<Option<Seq<char>>, _>(e@),
        },
{
    match get_field(fields, "contents", at) {
        Err(e) => Err(e),
        Ok(None) => Ok(None),
        Ok(Some(ManifestValue::Null)) => Ok(None),
        Ok(Some(ManifestValue::Str(s))) => Ok(Some(s.clone())),
        Ok(Some(other)) => Err(
            shape_defect_at(field_path_of(at, "contents"), "expected a string", other),
        ),
    }
}

/// Reads item `index` of the list of entries at `at`.
pub fn read_entry_item(m: &Manifest, item: &Slot, at: &str, index: usize) -> (r: Result<
    FsEntry,
    MagError,
>)
    requires
        m.wf(),
        m.slot_ok(*item),
    ensures
        match r {
            Ok(entry) => entry_item_spec(m, *item, at@, index as int) == Ok::<_, MagErrorView>(
                entry@,
            ),
            Err(e) => entry_item_spec(m, *item, at@, index as int) == Err::<FsEntryView, _>(e@),
        },
{
    let here = item_path_of(at, index);
    match item {
        Slot::Failed(message) => Err(defect_at(here, message.as_str())),
        Slot::Value(ManifestValue::Obj(o)) => {
            let fields = &m.objects[*o];
            let name = match read_required_string(fields, "type", here.as_str()) {
                Err(e) => {
                    return Err(e);
                },
                Ok(s) => s,
            };
            let path = match read_required_string(fields, "path", here.as_str()) {
                Err(e) => {
                    return Err(e);
                },
                Ok(s) => s,
            };
            if !path_is_absolute(path.as_str()) {
                let message = concat2("path must be absolute, got ", path.as_str());
                return Err(
                    MagError::Evaluation { context: field_path_of(here.as_str(), "path"), message },
                );
            }
            let mode = match read_entry_mode(fields, here.as_str()) {
                Err(e) => {
                    return Err(e);
                },
                Ok(mode) => mode,
            };
            if str_eq(name.as_str(), "dir") {
                Ok(FsEntry { kind: FsEntryKind::Dir, path, mode, contents: None, target: None })
            } else if str_eq(name.as_str(), "file") {
                match read_entry_contents(fields, here.as_str()) {
                    Err(e) => Err(e),
                    Ok(contents) => Ok(
                        FsEntry { kind: FsEntryKind::File, path, mode, contents, target: None },
                    ),
                }
            } else if str_eq(name.as_str(), "symlink") {
                match read_required_string(fields, "target", here.as_str()) {
                    Err(e) => Err(e),
                    Ok(target) => Ok(
                        FsEntry {
                            kind: FsEntryKind::Symlink,
                            path,
                            mode,
                            contents: None,
                            target: Some(target),
                        },
                    ),
                }
            } else {
                let message = concat3("unsupported fs entry type '", name.as_str(), "'");
                Err(MagError::Evaluation { context: field_path_of(here.as_str(), "type"), message })
            }
        },
        Slot::Value(other) => Err(shape_defect_at(here, "expected an object", other)),
    }
}

/// Reads the entries that the object at `at` declares.
pub fn read_filesystem_entries(m: &Manifest, fields: &Vec<Field>, at: &str) -> (r: Result<
    Vec<FsEntry>,
    MagError,
>)
    requires
        m.wf(),
        forall|k: int| 0 <= k < fields@.len() ==> m.slot_ok((#[trigger] fields@[k]).slot),
    ensures
        match r {
            Ok(v) => read_entries_spec(m, fields@, at@) == Ok::<_, MagErrorView>(entries_view(v@)),
            Err(e) => read_entries_spec(m, fields@, at@) == Err::<Seq<FsEntryView>, _>(e@),
        },
{
    match get_field(fields, "fsEntries", at) {
        Err(e) => Err(e),
        Ok(None) => {
            let out: Vec<FsEntry> = Vec::new();
            assert(entries_view(out@) =~= Seq::<FsEntryView>::empty());
            Ok(out)
        },
        Ok(Some(ManifestValue::Null)) => {
            let out: Vec<FsEntry> = Vec::new();
            assert(entries_view(out@) =~= Seq::<FsEntryView>::empty());
            Ok(out)
        },
        Ok(Some(ManifestValue::Arr(a))) => {
            proof {
                lemma_field_value_ok(m, fields@, "fsEntries"@);
            }
            let items = &m.arrays[*a];
            let here = field_path_of(at, "fsEntries");
            let mut out: Vec<FsEntry> = Vec::new();
            let mut i: usize = 0;
            assert(entries_view(out@) =~= Seq::<FsEntryView>::empty());
            while i < items.len()
                invariant
                    m.wf(),
                    *a < m.arrays@.len(),
                    items == m.arrays@[*a as int],
                    i <= items@.len(),
                    here@ == field_path(at@, "fsEntries"@),
                    get_field_spec(fields@, "fsEntries"@, at@) == Ok::<_, MagErrorView>(
                        Some(ManifestValue::Arr(*a)),
                    ),
                    entry_items_spec(m, items@, here@, i as int) == Ok::<_, MagErrorView>(
                        entries_view(out@),
                    ),
                decreases items@.len() - i,
            {
                let ghost before = entries_view(out@);
                proof {
                    if entry_items_spec(m, items@, here@, i + 1) is Err {
                        lemma_entry_items_err_stays(m, items@, here@, i + 1, items@.len() as int);
                    }
                }
                match read_entry_item(m, &items[i], here.as_str(), i) {
                    Err(e) => {
                        return Err(e);
                    },
                    Ok(entry) => {
                        out.push(entry);
                        assert(entries_view(out@) =~= before.push(entry@));
                    },
                }
                i = i + 1;
            }
            Ok(out)
        },
        Ok(Some(other)) => Err(
            shape_defect_at(field_path_of(at, "fsEntries"), "expected an array of objects", other),
        ),
    }
}

/// Whether one of the pairs has the key `key`.
pub open spec fn has_key(pairs: Seq<(Seq<char>, Seq<char>)>, key: Seq<char>) -> bool {
    exists|i: int| 0 <= i < pairs.len() && (#[trigger] pairs[i]).0 == key
}

/// No key occurs twice.
pub open spec fn distinct_keys(pairs: Seq<(Seq<char>, Seq<char>)>) -> bool {
    forall|i: int, j: int|
        0 <= i < j < pairs.len() ==> (#[trigger] pairs[i]).0 != (#[trigger] pairs[j]).0
}

/// The pairs of names and texts that the first `n` fields of the object at
/// `at` give, in their order. A name that occurred before is passed over:
/// the first field of a name is the one that counts.
pub open spec fn text_fields_spec(fields: Seq<Field>, at: Seq<char>, n: int) -> Result<
    Seq<(Seq<char>, Seq<char>)>,
    MagErrorView,
>
    decreases n,
{
    if n <= 0 {
        Ok(Seq::empty())
    } else {
        match text_fields_spec(fields, at, n - 1) {
            Err(e) => Err(e),
            Ok(acc) => {
                let name = fields[n - 1].name@;
                if has_key(acc, name) {
                    Ok(acc)
                } else {
                    match fields[n - 1].slot {
                        Slot::Failed(message) => Err(defect(field_path(at, name), message@)),
                        Slot::Value(ManifestValue::Str(text)) => Ok(acc.push((name, text@))),
                        Slot::Value(other) => Err(
                            shape_defect(field_path(at, name), "expected a string"@, other),
                        ),
                    }
                }
            },
        }
    }
}

/// Once a prefix of the fields is rejected, all of them are, for the same reason.
pub proof fn lemma_text_fields_err_stays(fields: Seq<Field>, at: Seq<char>, n: int, total: int)
    requires
        0 <= n <= total,
        text_fields_spec(fields, at, n) is Err,
    ensures
        text_fields_spec(fields, at, total) == text_fields_spec(fields, at, n),
    decreases total - n,
{
    if n < total {
        lemma_text_fields_err_stays(fields, at, n, total - 1);
    }
}

/// The pairs that the object at `at` declares in its field `field`, an
/// object whose fields are texts: none where the field is absent.
pub open spec fn string_map_spec(m: &Manifest, fields: Seq<Field>, field: Seq<char>, at: Seq<char>) -> Result<
    Seq<(Seq<char>, Seq<char>)>,
    MagErrorView,
> {
    match get_field_spec(fields, field, at) {
        Err(e) => Err(e),
        Ok(None) => Ok(Seq::empty()),
        Ok(Some(ManifestValue::Null)) => Ok(Seq::empty()),
        Ok(Some(ManifestValue::Obj(o))) => text_fields_spec(
            m.objects@[o as int]@,
            field_path(at, field),
            m.objects@[o as int]@.len() as int,
        ),
        Ok(Some(other)) => Err(
            shape_defect(field_path(at, field), "expected an object of strings"@, other),
        ),
    }
}

fn holds_key(pairs: &Vec<(String, String)>, key: &str) -> (r: bool)
    ensures
        r == has_key(pairs_view(pairs@), key@),
{
    let mut i: usize = 0;
    while i < pairs.len()
        invariant
            i <= pairs@.len(),
            forall|k: int| 0 <= k < i ==> (#[trigger] pairs_view(pairs@)[k]).0 != key@,
        decreases pairs@.len() - i,
    {
        assert(pairs_view(pairs@)[i as int].0 == pairs@[i as int].0@);
        if str_eq(pairs[i].0.as_str(), key) {
            return true;
        }
        i = i + 1;
    }
    false
}

/// Reads the pairs of names and texts that the object at `at` declares
/// in its field `field`. No name occurs twice among them.
pub fn read_string_map(m: &Manifest, fields: &Vec<Field>, field: &str, at: &str) -> (r: Result<
    Vec<(String, String)>,
    MagError,
>)
    requires
        m.wf(),
        forall|k: int| 0 <= k < fields@.len() ==> m.slot_ok((#[trigger] fields@[k]).slot),
    ensures
        match r {
            Ok(v) => string_map_spec(m, fields@, field@, at@) == Ok::<_, MagErrorView>(
                pairs_view(v@),
            ) && distinct_keys(pairs_view(v@)),
            Err(e) => string_map_spec(m, fields@, field@, at@) == Err::<
                Seq<(Seq<char>, Seq<char>)>,
                _,
            >(e@),
        },
{
    match get_field(fields, field, at) {
        Err(e) => Err(e),
        Ok(None) => {
            let out: Vec<(String, String)> = Vec::new();
            assert(pairs_view(out@) =~= Seq::<(Seq<char>, Seq<char>)>::empty());
            Ok(out)
        },
        Ok(Some(ManifestValue::Null)) => {
            let out: Vec<(String, String)> = Vec::new();
            assert(pairs_view(out@) =~= Seq::<(Seq<char>, Seq<char>)>::empty());
            Ok(out)
        },
        Ok(Some(ManifestValue::Obj(o))) => {
            proof {
                lemma_field_value_ok(m, fields@, field@);
            }
            let entries = &m.objects[*o];
            let here = field_path_of(at, field);
            let mut out: Vec<(String, String)> = Vec::new();
            let mut i: usize = 0;
            assert(pairs_view(out@) =~= Seq::<(Seq<char>, Seq<char>)>::empty());
            while i < entries.len()
                invariant
                    *o < m.objects@.len(),
                    entries == m.objects@[*o as int],
                    i <= entries@.len(),
                    here@ == field_path(at@, field@),
                    get_field_spec(fields@, field@, at@) == Ok::<_, MagErrorView>(
                        Some(ManifestValue::Obj(*o)),
                    ),
                    text_fields_spec(entries@, here@, i as int) == Ok::<_, MagErrorView>(
                        pairs_view(out@),
                    ),
                    distinct_keys(pairs_view(out@)),
                decreases entries@.len() - i,
            {
                let ghost before = pairs_view(out@);
                proof {
                    if text_fields_spec(entries@, here@, i + 1) is Err {
                        lemma_text_fields_err_stays(entries@, here@, i + 1, entries@.len() as int);
                    }
                }
                let entry = &entries[i];
                if !holds_key(&out, entry.name.as_str()) {
                    match &entry.slot {
                        Slot::Failed(message) => {
                            return Err(
                                defect_at(
                                    field_path_of(here.as_str(), entry.name.as_str()),
                                    message.as_str(),
                                ),
                            );
                        },
                        Slot::Value(ManifestValue::Str(text)) => {
                            out.push((entry.name.clone(), text.clone()));
                            assert(pairs_view(out@) =~= before.push((entry.name@, text@)));
                        },
                        Slot::Value(other) => {
                            return Err(
                                shape_defect_at(
                                    field_path_of(here.as_str(), entry.name.as_str()),
                                    "expected a string",
                                    other,
                                ),
                            );
                        },
                    }
                }
                i = i + 1;
            }
            Ok(out)
        },
        Ok(Some(other)) => Err(
            shape_defect_at(field_path_of(at, field), "expected an object of strings", other),
        ),
    }
}

/// A control character: one below the space, or from U+007F to U+009F.
pub open spec fn is_control(c: char) -> bool {
    c as u32 <= 0x1f || 0x7f <= c as u32 <= 0x9f
}

/// How a character stands inside a quoted manifest string: the backslash,
/// the quotation mark, the line feed, the carriage return and the
/// tabulator behind a backslash; any other control character as `\u` and
/// its number in four hexadecimal digits; any other character as itself.
pub open spec fn quoted_char(c: char) -> Seq<char> {
    if c == '\\' {
        "\\\\"@
    } else if c == '"' {
        "\\\""@
    } else if c == '\n' {
        "\\n"@
    } else if c == '\r' {
        "\\r"@
    } else if c == '\t' {
        "\\t"@
    } else if is_control(c) {
        "\\u00"@ + seq![hex_digit((c as u32 / 16) as nat), hex_digit((c as u32 % 16) as nat)]
    } else {
        seq![c]
    }
}

/// The first `n` characters of `s` as they stand inside a quoted manifest string.
pub open spec fn quoted_body(s: Seq<char>, n: int) -> Seq<char>
    decreases n,
{
    if n <= 0 {
        Seq::empty()
    } else {
        quoted_body(s, n - 1) + quoted_char(s[n - 1])
    }
}

/// The text as a string of the manifest language, between quotation marks.
pub open spec fn quote_spec(s: Seq<char>) -> Seq<char> {
    seq!['"'] + quoted_body(s, s.len() as int) + seq!['"']
}

/// Writes `text` as a string of the manifest language.
pub fn quote_jsonnet_string(text: &str) -> (out: String)
    ensures
        out@ == quote_spec(text@),
{
    let v = chars_of(text);
    let mut out = String::new();
    push_char(&mut out, '"');
    assert(out@ =~= seq!['"']);
    let mut i: usize = 0;
    while i < v.len()
        invariant
            i <= v@.len(),
            out@ == seq!['"'] + quoted_body(v@, i as int),
        decreases v@.len() - i,
    {
        let c: char = v[i];
        let ghost before = out@;
        let code: u32 = c as u32;
        if c == '\\' {
            out.append("\\\\");
        } else if c == '"' {
            out.append("\\\"");
        } else if c == '\n' {
            out.append("\\n");
        } else if c == '\r' {
            out.append("\\r");
        } else if c == '\t' {
            out.append("\\t");
        } else if code <= 0x1f || (0x7f <= code && code <= 0x9f) {
            out.append("\\u00");
            let ghost lead = out@;
            push_char(&mut out, hex_digit_char((code / 16) as u8));
            push_char(&mut out, hex_digit_char((code % 16) as u8));
            assert(out@ =~= lead + seq![
                hex_digit((code / 16) as nat),
                hex_digit((code % 16) as nat),
            ]);
        } else {
            push_char(&mut out, c);
            assert(out@ =~= before + seq![c]);
        }
        assert(out@ =~= before + quoted_char(c));
        assert(out@ =~= seq!['"'] + quoted_body(v@, i + 1));
        i = i + 1;
    }
    push_char(&mut out, '"');
    assert(out@ =~= quote_spec(text@));
    out
}

/// The description of an interactive environment.
#[derive(Debug)]
pub struct VenvSpec {
    /// The packages of the environment, by their index in the graph.
    pub packages: Vec<usize>,
    /// The names of the variables that are kept from the caller's environment.
    pub env_keep: Vec<String>,
    /// The variables that are set, each name once.
    pub env_set: Vec<(String, String)>,
    /// Whether the usual bindings are made.
    pub use_default_mounts: bool,
    /// The bindings that the manifest adds.
    pub mounts: Vec<MountSpec>,
    /// The entries that are laid out in the root.
    pub fs_entries: Vec<FsEntry>,
}

/// The mathematical value of a [`VenvSpec`].
pub struct VenvView {
    pub packages: Seq<usize>,
    pub env_keep: Seq<Seq<char>>,
    pub env_set: Seq<(Seq<char>, Seq<char>)>,
    pub use_default_mounts: bool,
    pub mounts: Seq<MountView>,
    pub fs_entries: Seq<FsEntryView>,
}

impl View for VenvSpec {
    type V = VenvView;

    open spec fn view(&self) -> VenvView {
        VenvView {
            packages: self.packages@,
            env_keep: strings_view(self.env_keep@),
            env_set: pairs_view(self.env_set@),
            use_default_mounts: self.use_default_mounts,
            mounts: mounts_view(self.mounts@),
            fs_entries: entries_view(self.fs_entries@),
        }
    }
}

/// The value of what reading an environment gives.
pub open spec fn venv_view(r: Result<VenvSpec, MagError>) -> Result<VenvView, MagErrorView> {
    match r {
        Ok(v) => Ok(v@),
        Err(e) => Err(e@),
    }
}

/// What the object at `at` says of the environment whose packages are
/// `packages`: the fields `envKeep`, `envSet`, `mountDefaults` (the usual
/// bindings are made unless it is false), `mounts` and `fsEntries`, read
/// in this order.
pub open spec fn venv_fields_spec(
    m: &Manifest,
    fields: Seq<Field>,
    at: Seq<char>,
    packages: Seq<usize>,
) -> Result<VenvView, MagErrorView> {
    match string_array_spec(m, fields, "envKeep"@, at) {
        Err(e) => Err(e),
        Ok(env_keep) => match string_map_spec(m, fields, "envSet"@, at) {
            Err(e) => Err(e),
            Ok(env_set) => match optional_bool_spec(fields, "mountDefaults"@, at) {
                Err(e) => Err(e),
                Ok(flag) => match read_mounts_spec(m, fields, at) {
                    Err(e) => Err(e),
                    Ok(mounts) => match read_entries_spec(m, fields, at) {
                        Err(e) => Err(e),
                        Ok(fs_entries) => Ok(
                            VenvView {
                                packages,
                                env_keep,
                                env_set,
                                use_default_mounts: flag != Some(false),
                                mounts,
                                fs_entries,
                            },
                        ),
                    },
                },
            },
        },
    }
}

/// What the manifest `value` says of an environment, and the packages of
/// the graph after its packages were built behind `nodes`. The manifest
/// is an object; its field `packages` holds a package or a list of
/// packages, of which there is at least one.
pub open spec fn venv_spec(m: &Manifest, nodes: Seq<PackageView>, value: ManifestValue) -> (
    Seq<PackageView>,
    Result<VenvView, MagErrorView>,
) {
    match value {
        ManifestValue::Obj(o) => {
            let fields = m.objects@[o as int]@;
            match get_field_spec(fields, "packages"@, root_path()) {
                Err(e) => (nodes, Err(e)),
                Ok(None) => (
                    nodes,
                    Err(defect(field_path(root_path(), "packages"@), "missing required field"@)),
                ),
                Ok(Some(packages)) => {
                    let (st, built) = roots_spec(m, start_state(m, nodes), packages);
                    match built {
                        Err(e) => (st.nodes, Err(e)),
                        Ok(list) => if list.len() == 0 {
                            (
                                st.nodes,
                                Err(
                                    defect(
                                        field_path(root_path(), "packages"@),
                                        "must not be empty"@,
                                    ),
                                ),
                            )
                        } else {
                            (st.nodes, venv_fields_spec(m, fields, root_path(), list))
                        },
                    }
                },
            }
        },
        other => (nodes, Err(shape_defect(root_path(), "expected an object"@, other))),
    }
}

impl VenvSpec {
    /// Reads the description of an environment out of the manifest `m`,
    /// whose value is `value`, and builds its packages into the graph of
    /// `builder`.
    pub fn from_value(m: &Manifest, value: &ManifestValue, builder: &mut PackageGraphBuilder) -> (r:
        Result<VenvSpec, MagError>)
        requires
            m.wf(),
            m.slot_ok(Slot::Value(*value)),
            old(builder).graph.wf(),
        ensures
            final(builder).graph.wf(),
            extends(old(builder).graph@, final(builder).graph@),
            venv_spec(m, old(builder).graph@, *value) == (final(builder).graph@, venv_view(r)),
            match r {
                Ok(v) => all_below(v.packages@, final(builder).graph@.len() as int),
                Err(_) => true,
            },
    {
        let o = match value {
            ManifestValue::Obj(o) => *o,
            other => {
                return Err(shape_defect_at(String::from_str("$"), "expected an object", other));
            },
        };
        let fields = &m.objects[o];
        proof {
            assert forall|k: int| 0 <= k < fields@.len() implies m.slot_ok(
                (#[trigger] fields@[k]).slot,
            ) by {
                assert(m.slot_ok(m.objects@[o as int]@[k].slot));
            }
            lemma_field_value_ok(m, fields@, "packages"@);
        }
        let declared = match get_field(fields, "packages", "$") {
            Err(e) => {
                return Err(e);
            },
            Ok(None) => {
                return Err(defect_at(field_path_of("$", "packages"), "missing required field"));
            },
            Ok(Some(v)) => v,
        };
        let packages = match builder.packages_from_value(m, declared) {
            Err(e) => {
                return Err(e);
            },
            Ok(list) => list,
        };
        if packages.len() == 0 {
            return Err(defect_at(field_path_of("$", "packages"), "must not be empty"));
        }
        let env_keep = match read_string_array(m, fields, "envKeep", "$") {
            Err(e) => {
                return Err(e);
            },
            Ok(v) => v,
        };
        let env_set = match read_string_map(m, fields, "envSet", "$") {
            Err(e) => {
                return Err(e);
            },
            Ok(v) => v,
        };
        let use_default_mounts = match read_optional_bool(fields, "mountDefaults", "$") {
            Err(e) => {
                return Err(e);
            },
            Ok(Some(b)) => b,
            Ok(None) => true,
        };
        let mounts = match read_mounts(m, fields, "$") {
            Err(e) => {
                return Err(e);
            },
            Ok(v) => v,
        };
        let fs_entries = match read_filesystem_entries(m, fields, "$") {
            Err(e) => {
                return Err(e);
            },
            Ok(v) => v,
        };
        Ok(VenvSpec { packages, env_keep, env_set, use_default_mounts, mounts, fs_entries })
    }
}

} // verus!
