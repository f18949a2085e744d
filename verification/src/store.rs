//! Where everything lies under the store root.
//!
//! ```text
//! <root>/pkgs/<base>.tar.zst     finished artifact
//! <root>/pkgs/<base>.lock        per-package lock and touch file
//! <root>/pkgs/<base>.build/      workspace of a build in progress
//! <root>/fetch/<sha256>          cached fetch file
//! <root>/fetch/<sha256>.lock     per-fetch lock
//! <root>/fetch/<sha256>.tmp      partial download
//! <root>/torrent/<info_hash>/    torrent mirror entry
//! <root>/seed/seeder.lock        lock of the running seeder
//! ```
//!
//! Paths are plain strings with `/` as separator.

use vstd::prelude::*;
use crate::error::{MagError, MagErrorView};
use crate::package::{base_name_spec, package_base_name, Package};
use crate::text::{chars_of, concat2, ends_with, str_strip_suffix, string_of_range};

verus! {

/// `child` below `base`: an absolute `child` stands alone, and a separator
/// is put between the two unless `base` is empty or ends with one.
pub open spec fn join_spec(base: Seq<char>, child: Seq<char>) -> Seq<char> {
    if child.len() > 0 && child[0] == '/' {
        child
    } else if base.len() == 0 || base.last() == '/' {
        base + child
    } else {
        base + "/"@ + child
    }
}

/// The path of `child` below `base`.
pub fn join_path(base: &str, child: &str) -> (out: String)
    ensures
        out@ == join_spec(base@, child@),
{
    let c = chars_of(child);
    if c.len() > 0 && c[0] == '/' {
        return String::from_str(child);
    }
    let b = chars_of(base);
    if b.len() == 0 || b[b.len() - 1] == '/' {
        concat2(base, child)
    } else {
        let mut out = String::from_str(base);
        out.append("/");
        out.append(child);
        out
    }
}

/// `s` without any trailing repetition of `suffix`.
pub open spec fn trim_end_matches_spec(s: Seq<char>, suffix: Seq<char>) -> Seq<char>
    decreases s.len(),
{
    if suffix.len() > 0 && ends_with(s, suffix) {
        trim_end_matches_spec(s.subrange(0, s.len() - suffix.len()), suffix)
    } else {
        s
    }
}

/// Removes every trailing repetition of `suffix` from `s`.
pub fn trim_end_matches(s: &str, suffix: &str) -> (out: String)
    ensures
        out@ == trim_end_matches_spec(s@, suffix@),
{
    let mut current = String::from_str(s);
    if suffix.is_empty() {
        return current;
    }
    loop
        invariant
            suffix@.len() > 0,
            trim_end_matches_spec(s@, suffix@) == trim_end_matches_spec(current@, suffix@),
        decreases current@.len(),
    {
        match str_strip_suffix(current.as_str(), suffix) {
            Some(rest) => {
                current = rest;
            },
            None => {
                return current;
            },
        }
    }
}

/// The base name that a directory entry of `pkgs/` belongs to: the entry's
/// name without its suffix `.tar.zst`, `.build` or `.lock`, whichever is
/// found first in this order.
pub open spec fn base_from_entry_spec(name: Seq<char>) -> Option<Seq<char>> {
    if ends_with(name, ".tar.zst"@) {
        Some(trim_end_matches_spec(name, ".tar.zst"@))
    } else if ends_with(name, ".build"@) {
        Some(trim_end_matches_spec(name, ".build"@))
    } else if ends_with(name, ".lock"@) {
        Some(trim_end_matches_spec(name, ".lock"@))
    } else {
        None
    }
}

/// The base name that a directory entry of `pkgs/` belongs to, if any.
pub fn package_base_from_entry(name: &str) -> (r: Option<String>)
    ensures
        match r {
            Some(base) => base_from_entry_spec(name@) == Some(base@),
            None => base_from_entry_spec(name@) is None,
        },
{
    if crate::text::str_ends_with(name, ".tar.zst") {
        Some(trim_end_matches(name, ".tar.zst"))
    } else if crate::text::str_ends_with(name, ".build") {
        Some(trim_end_matches(name, ".build"))
    } else if crate::text::str_ends_with(name, ".lock") {
        Some(trim_end_matches(name, ".lock"))
    } else {
        None
    }
}

/// The number of characters of `s` that remain when its trailing separators are dropped.
pub open spec fn trimmed_len(s: Seq<char>) -> int
    decreases s.len(),
{
    if s.len() > 0 && s.last() == '/' {
        trimmed_len(s.drop_last())
    } else {
        s.len() as int
    }
}

/// The offset at which the last component of `s` begins, `s` not ending in a separator.
pub open spec fn last_component_start(s: Seq<char>) -> int
    decreases s.len(),
{
    if s.len() > 0 && s.last() != '/' {
        last_component_start(s.drop_last())
    } else {
        s.len() as int
    }
}

/// The path for a partial download whose final place is `dest`: the last
/// component of `dest` gets `.tmp` appended; where `dest` has no last
/// component, or ends in `..`, it is `fetch.tmp` below `dest`.
pub open spec fn temp_path_spec(dest: Seq<char>) -> Seq<char> {
    let stem = dest.subrange(0, trimmed_len(dest));
    let name = stem.subrange(last_component_start(stem), stem.len() as int);
    if name.len() > 0 && name != ".."@ {
        stem + ".tmp"@
    } else {
        join_spec(dest, "fetch.tmp"@)
    }
}

proof fn lemma_trimmed_len(s: Seq<char>, k: int)
    requires
        0 <= k <= s.len(),
        forall|j: int| k <= j < s.len() ==> s[j] == '/',
        k > 0 ==> s[k - 1] != '/',
    ensures
        trimmed_len(s) == k,
    decreases s.len() - k,
{
    if k < s.len() {
        let t = s.drop_last();
        lemma_trimmed_len(t, k);
    }
}

proof fn lemma_last_component_start(s: Seq<char>, k: int)
    requires
        0 <= k <= s.len(),
        forall|j: int| k <= j < s.len() ==> s[j] != '/',
        k > 0 ==> s[k - 1] == '/',
    ensures
        last_component_start(s) == k,
    decreases s.len() - k,
{
    if k < s.len() {
        let t = s.drop_last();
        lemma_last_component_start(t, k);
    }
}

/// The path for a partial download whose final place is `dest`.
pub fn temp_path_for(dest: &str) -> (out: String)
    ensures
        out@ == temp_path_spec(dest@),
{
    let v = chars_of(dest);
    let mut end: usize = v.len();
    while end > 0 && v[end - 1] == '/'
        invariant
            end <= v.len(),
            forall|j: int| end <= j < v.len() ==> v@[j] == '/',
        decreases end,
    {
        end = end - 1;
    }
    let mut start: usize = end;
    while start > 0 && v[start - 1] != '/'
        invariant
            start <= end <= v.len(),
            forall|j: int| start <= j < end ==> v@[j] != '/',
        decreases start,
    {
        start = start - 1;
    }
    proof {
        lemma_trimmed_len(v@, end as int);
        let stem = v@.subrange(0, end as int);
        lemma_last_component_start(stem, start as int);
        assert(stem.subrange(start as int, stem.len() as int) =~= v@.subrange(
            start as int,
            end as int,
        ));
    }
    let name = string_of_range(&v, start, end);
    if end > start && !crate::text::str_eq(name.as_str(), "..") {
        let mut out = string_of_range(&v, 0, end);
        out.append(".tmp");
        out
    } else {
        join_path(dest, "fetch.tmp")
    }
}

/// The lock file of the seeder, below the seed directory.
pub fn seed_lock_path(seed_root: &str) -> (out: String)
    ensures
        out@ == join_spec(seed_root@, "seeder.lock"@),
{
    join_path(seed_root, "seeder.lock")
}

/// The directories of one store.
#[derive(Debug)]
pub struct PackageStore {
    pub base_root: String,
    pub store_root: String,
    pub fetch_root: String,
    pub torrent_root: String,
}

/// The store root chosen by the environment: `custom` where it is set,
/// else `.magpkg` below `home`.
pub open spec fn resolve_root_spec(custom: Option<Seq<char>>, home: Option<Seq<char>>) -> Result<
    Seq<char>,
    MagErrorView,
> {
    match custom {
        Some(root) => Ok(root),
        None => match home {
            Some(h) => Ok(join_spec(h, ".magpkg"@)),
            None => Err(MagErrorView::Generic("HOME environment variable is not set"@)),
        },
    }
}

/// The value of an optional string.
pub open spec fn opt_view(s: Option<String>) -> Option<Seq<char>> {
    match s {
        Some(t) => Some(t@),
        None => None,
    }
}

impl PackageStore {
    /// The four directories lie below one root as the layout says.
    pub open spec fn wf(&self) -> bool {
        &&& self.store_root@ == join_spec(self.base_root@, "pkgs"@)
        &&& self.fetch_root@ == join_spec(self.base_root@, "fetch"@)
        &&& self.torrent_root@ == join_spec(self.base_root@, "torrent"@)
    }

    /// The store below `root`.
    pub fn at(root: String) -> (store: PackageStore)
        ensures
            store.wf(),
            store.base_root@ == root@,
    {
        let store_root = join_path(root.as_str(), "pkgs");
        let fetch_root = join_path(root.as_str(), "fetch");
        let torrent_root = join_path(root.as_str(), "torrent");
        PackageStore { base_root: root, store_root, fetch_root, torrent_root }
    }

    /// The store that the environment names: below `custom` (the variable
    /// `MAGPKG_STORE`) where it is set, else below `.magpkg` in `home` (the
    /// variable `HOME`); without both there is no store.
    pub fn new(custom: Option<String>, home: Option<String>) -> (r: Result<PackageStore, MagError>)
        ensures
            match r {
                Ok(store) => store.wf() && resolve_root_spec(opt_view(custom), opt_view(home))
                    == Ok::<_, MagErrorView>(store.base_root@),
                Err(e) => resolve_root_spec(opt_view(custom), opt_view(home)) == Err::<
                    Seq<char>,
                    _,
                >(e@),
            },
    {
        match custom {
            Some(root) => Ok(PackageStore::at(root)),
            None => match home {
                Some(h) => Ok(PackageStore::at(join_path(h.as_str(), ".magpkg"))),
                None => Err(
                    MagError::Generic(String::from_str("HOME environment variable is not set")),
                ),
            },
        }
    }

    /// The directory that holds the seeder's lock.
    pub fn seed_root(&self) -> (out: String)
        ensures
            out@ == join_spec(self.base_root@, "seed"@),
    {
        join_path(self.base_root.as_str(), "seed")
    }

    /// The directory that holds the torrent mirror.
    pub fn torrent_root(&self) -> (out: &str)
        ensures
            out@ == self.torrent_root@,
    {
        self.torrent_root.as_str()
    }

    /// The file `<base><suffix>` below `pkgs/`.
    pub fn package_file(&self, base: &str, suffix: &str) -> (out: String)
        ensures
            out@ == join_spec(self.store_root@, base@ + suffix@),
    {
        let name = concat2(base, suffix);
        join_path(self.store_root.as_str(), name.as_str())
    }

    /// Where the artifact of `package` lies: `<store>/pkgs/<base>.tar.zst`.
    pub fn package_artifact_path(&self, package: &Package) -> (out: String)
        ensures
            out@ == join_spec(
                self.store_root@,
                base_name_spec(package@.name, package@.hash) + ".tar.zst"@,
            ),
    {
        let base = package_base_name(package);
        self.package_file(base.as_str(), ".tar.zst")
    }

    /// The lock file of `package`: `<store>/pkgs/<base>.lock`.
    pub fn package_lock_path(&self, package: &Package) -> (out: String)
        ensures
            out@ == join_spec(
                self.store_root@,
                base_name_spec(package@.name, package@.hash) + ".lock"@,
            ),
    {
        let base = package_base_name(package);
        self.package_file(base.as_str(), ".lock")
    }

    /// The workspace in which `package` is built: `<store>/pkgs/<base>.build`.
    pub fn package_build_root(&self, package: &Package) -> (out: String)
        ensures
            out@ == join_spec(
                self.store_root@,
                base_name_spec(package@.name, package@.hash) + ".build"@,
            ),
    {
        let base = package_base_name(package);
        self.package_file(base.as_str(), ".build")
    }

    /// Where the cached file with the digest `sha256` lies: `<store>/fetch/<sha256>`.
    pub fn fetch_path(&self, sha256: &str) -> (out: String)
        ensures
            out@ == join_spec(self.fetch_root@, sha256@),
    {
        join_path(self.fetch_root.as_str(), sha256)
    }

    /// The lock file of the fetch with the digest `sha256`: `<store>/fetch/<sha256>.lock`.
    pub fn fetch_lock_path(&self, sha256: &str) -> (out: String)
        ensures
            out@ == join_spec(self.fetch_root@, sha256@ + ".lock"@),
    {
        let name = concat2(sha256, ".lock");
        join_path(self.fetch_root.as_str(), name.as_str())
    }

    /// The mirror directory of the torrent `info_hash`: `<store>/torrent/<info_hash>`.
    pub fn torrent_dir(&self, info_hash: &str) -> (out: String)
        ensures
            out@ == join_spec(self.torrent_root@, info_hash@),
    {
        join_path(self.torrent_root.as_str(), info_hash)
    }
}

/// The offset behind the last `c` in `s`, or zero where `s` holds none.
pub open spec fn after_last(s: Seq<char>, c: char) -> int
    decreases s.len(),
{
    if s.len() == 0 {
        0
    } else if s.last() == c {
        s.len() as int
    } else {
        after_last(s.drop_last(), c)
    }
}

/// The extension of a path: what follows the last dot of its last
/// component, where that dot is not the component's first character.
pub open spec fn extension_spec(path: Seq<char>) -> Option<Seq<char>> {
    let name = path.subrange(after_last(path, '/'), path.len() as int);
    let dot = after_last(name, '.');
    if dot <= 1 {
        None
    } else {
        Some(name.subrange(dot, name.len() as int))
    }
}

/// The offset behind the last `c` is the one behind which no `c` follows.
pub proof fn lemma_after_last(s: Seq<char>, c: char, k: int)
    requires
        0 <= k <= s.len(),
        forall|j: int| k <= j < s.len() ==> s[j] != c,
        k > 0 ==> s[k - 1] == c,
    ensures
        after_last(s, c) == k,
    decreases s.len() - k,
{
    if k < s.len() {
        lemma_after_last(s.drop_last(), c, k);
    }
}

/// The offset in `v[from..]` behind its last `c`, or `from` where it holds none.
pub fn find_after_last(v: &Vec<char>, from: usize, c: char) -> (k: usize)
    requires
        from <= v.len(),
    ensures
        from <= k <= v.len(),
        k - from == after_last(v@.subrange(from as int, v@.len() as int), c),
{
    let mut k: usize = v.len();
    while k > from && v[k - 1] != c
        invariant
            from <= k <= v.len(),
            forall|j: int| k <= j < v.len() ==> v@[j] != c,
        decreases k,
    {
        k = k - 1;
    }
    proof {
        let tail = v@.subrange(from as int, v@.len() as int);
        assert forall|j: int| k - from <= j < tail.len() implies tail[j] != c by {
            assert(tail[j] == v@[from + j]);
        }
        if k > from {
            assert(tail[k - from - 1] == v@[k - 1]);
        }
        lemma_after_last(tail, c, k - from);
    }
    k
}

} // verus!
