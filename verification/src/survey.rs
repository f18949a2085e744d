//! Sorting out what the sweeper finds in the directories of the store.

use vstd::prelude::*;
use crate::package::strings_view;
use crate::store::{base_from_entry_spec, opt_view, package_base_from_entry};
use crate::text::{
    chars_of, ends_with, occurs_at, starts_with, str_eq, str_find, str_starts_with,
    str_strip_suffix, string_of_range,
};
use crate::torrent::{fetcher_lock_name, session_prefix, work_marker};

verus! {

/// The texts among the first `n` of `bases`, each once, in the order of
/// their first occurrence.
pub open spec fn distinct_spec(bases: Seq<Option<Seq<char>>>, n: int) -> Seq<Seq<char>>
    decreases n,
{
    if n <= 0 {
        Seq::empty()
    } else {
        let before = distinct_spec(bases, n - 1);
        match bases[n - 1] {
            Some(b) => if before.contains(b) {
                before
            } else {
                before.push(b)
            },
            None => before,
        }
    }
}

/// One of `bases` is the text `base`.
pub open spec fn named(bases: Seq<Option<Seq<char>>>, base: Seq<char>) -> bool {
    exists|k: int| 0 <= k < bases.len() && #[trigger] bases[k] == Some(base)
}

/// The distinct texts hold each text that occurs, once, and nothing else.
pub proof fn lemma_distinct(bases: Seq<Option<Seq<char>>>, n: int)
    requires
        0 <= n <= bases.len(),
    ensures
        distinct_spec(bases, n).no_duplicates(),
        forall|k: int|
            0 <= k < n ==> match #[trigger] bases[k] {
                Some(b) => distinct_spec(bases, n).contains(b),
                None => true,
            },
        forall|j: int|
            0 <= j < distinct_spec(bases, n).len() ==> named(
                bases,
                #[trigger] distinct_spec(bases, n)[j],
            ),
    decreases n,
{
    if n > 0 {
        lemma_distinct(bases, n - 1);
        let before = distinct_spec(bases, n - 1);
        let after = distinct_spec(bases, n);
        assert forall|k: int| 0 <= k < n implies match #[trigger] bases[k] {
            Some(b) => after.contains(b),
            None => true,
        } by {
            match bases[k] {
                Some(b) => {
                    if k < n - 1 {
                        let q = choose|q: int| 0 <= q < before.len() && before[q] == b;
                        assert(after[q] == b);
                    } else if !before.contains(b) {
                        assert(after[before.len() as int] == b);
                    }
                },
                None => {},
            }
        }
        assert forall|j: int| 0 <= j < after.len() implies named(bases, #[trigger] after[j]) by {
            if j < before.len() {
                assert(after[j] == before[j]);
                assert(named(bases, before[j]));
            } else {
                assert(bases[n - 1] == Some(after[j]));
            }
        }
        assert forall|a: int, b: int|
            0 <= a < after.len() && 0 <= b < after.len() && a != b implies after[a]
            != after[b] by {
            if a < before.len() && b < before.len() {
                assert(before[a] != before[b]);
            } else if a < before.len() {
                assert(before.contains(before[a]));
            } else {
                assert(before.contains(before[b]));
            }
        }
    }
}

/// The values of a list of optional texts.
pub open spec fn opts_view(v: Seq<Option<String>>) -> Seq<Option<Seq<char>>> {
    Seq::new(v.len(), |i: int| opt_view(v[i]))
}

/// Whether `names` holds the text `name`.
fn holds(names: &Vec<String>, name: &String) -> (r: bool)
    ensures
        r == strings_view(names@).contains(name@),
{
    let mut i: usize = 0;
    while i < names.len()
        invariant
            i <= names@.len(),
            forall|k: int| 0 <= k < i ==> names@[k]@ != name@,
        decreases names@.len() - i,
    {
        if names[i] == *name {
            assert(strings_view(names@)[i as int] == name@);
            return true;
        }
        i = i + 1;
    }
    assert forall|k: int| 0 <= k < strings_view(names@).len() implies strings_view(names@)[k]
        != name@ by {
        assert(strings_view(names@)[k] == names@[k]@);
    }
    false
}

/// The texts among `bases`, each once, in the order of their first occurrence.
fn distinct_texts(bases: &Vec<Option<String>>) -> (out: Vec<String>)
    ensures
        strings_view(out@) == distinct_spec(opts_view(bases@), bases@.len() as int),
{
    let ghost all = opts_view(bases@);
    let mut out: Vec<String> = Vec::new();
    let mut i: usize = 0;
    assert(strings_view(out@) =~= distinct_spec(all, 0));
    while i < bases.len()
        invariant
            i <= bases@.len(),
            all == opts_view(bases@),
            strings_view(out@) == distinct_spec(all, i as int),
        decreases bases@.len() - i,
    {
        let ghost before = strings_view(out@);
        assert(all[i as int] == opt_view(bases@[i as int]));
        match &bases[i] {
            Some(base) => {
                if !holds(&out, base) {
                    out.push(base.clone());
                    assert(strings_view(out@) =~= before.push(base@));
                }
            },
            None => {},
        }
        i = i + 1;
    }
    out
}

/// The base name that each entry of `pkgs/` belongs to.
pub open spec fn entry_bases(entries: Seq<String>) -> Seq<Option<Seq<char>>> {
    Seq::new(entries.len(), |i: int| base_from_entry_spec(entries[i]@))
}

/// The base names that the entries of `pkgs/` belong to: each base name
/// once, in the order in which the entries first name it.
pub fn discover_bases(entries: &Vec<String>) -> (bases: Vec<String>)
    ensures
        strings_view(bases@) == distinct_spec(entry_bases(entries@), entries@.len() as int),
        strings_view(bases@).no_duplicates(),
        forall|k: int|
            0 <= k < entries@.len() ==> match #[trigger] entry_bases(entries@)[k] {
                Some(base) => strings_view(bases@).contains(base),
                None => true,
            },
        forall|j: int|
            0 <= j < bases@.len() ==> named(entry_bases(entries@), #[trigger] strings_view(bases@)[j]),
{
    let mut found: Vec<Option<String>> = Vec::new();
    let mut i: usize = 0;
    while i < entries.len()
        invariant
            i <= entries@.len(),
            found@.len() == i,
            forall|k: int|
                0 <= k < i ==> opt_view(#[trigger] found@[k]) == base_from_entry_spec(
                    entries@[k]@,
                ),
        decreases entries@.len() - i,
    {
        found.push(package_base_from_entry(entries[i].as_str()));
        i = i + 1;
    }
    assert(opts_view(found@) =~= entry_bases(entries@));
    proof {
        lemma_distinct(entry_bases(entries@), entries@.len() as int);
    }
    distinct_texts(&found)
}

/// The kinds of directory entries.
#[derive(Clone, Copy, Debug, PartialEq, Eq, Structural)]
pub enum EntryKind {
    Dir,
    File,
    Other,
}

/// What an entry of `fetch/` is.
#[derive(Debug)]
pub enum FetchEntryClass {
    /// The work directory of a torrent download for the digest `base`.
    WorkDir { base: String },
    /// The directory of a torrent session.
    Session,
    /// A lock file of a torrent worker left outside its session.
    StrayFetcherLock,
    /// The lock file of the digest `base`.
    Lock { base: String },
    /// A partial download for the digest `base`.
    Partial { base: String },
    /// The cached file with the digest `base`.
    File { base: String },
    /// Nothing that the sweeper knows.
    Ignored,
}

/// The mathematical value of a [`FetchEntryClass`].
pub enum FetchEntryClassView {
    WorkDir { base: Seq<char> },
    Session,
    StrayFetcherLock,
    Lock { base: Seq<char> },
    Partial { base: Seq<char> },
    File { base: Seq<char> },
    Ignored,
}

impl View for FetchEntryClass {
    type V = FetchEntryClassView;

    open spec fn view(&self) -> FetchEntryClassView {
        match self {
            FetchEntryClass::WorkDir { base } => FetchEntryClassView::WorkDir { base: base@ },
            FetchEntryClass::Session => FetchEntryClassView::Session,
            FetchEntryClass::StrayFetcherLock => FetchEntryClassView::StrayFetcherLock,
            FetchEntryClass::Lock { base } => FetchEntryClassView::Lock { base: base@ },
            FetchEntryClass::Partial { base } => FetchEntryClassView::Partial { base: base@ },
            FetchEntryClass::File { base } => FetchEntryClassView::File { base: base@ },
            FetchEntryClass::Ignored => FetchEntryClassView::Ignored,
        }
    }
}

/// The offset of the first occurrence of `needle` in `s`, if there is one.
pub open spec fn first_occurrence(s: Seq<char>, needle: Seq<char>) -> Option<int> {
    if exists|k: int| occurs_at(s, needle, k) {
        Some(
            choose|k: int|
                occurs_at(s, needle, k) && forall|j: int| 0 <= j < k ==> !occurs_at(s, needle, j),
        )
    } else {
        None
    }
}

/// What the entry `name` of `fetch/` is. A directory is a work directory
/// when its name holds the work marker, with the digest before the first
/// marker, and a session when its name begins with the session prefix. A
/// file is a lock or a partial download by its suffix, and a cached file
/// otherwise.
pub open spec fn classify_spec(name: Seq<char>, kind: EntryKind) -> FetchEntryClassView {
    match kind {
        EntryKind::Dir => match first_occurrence(name, work_marker()) {
            Some(at) => FetchEntryClassView::WorkDir { base: name.subrange(0, at) },
            None => if starts_with(name, session_prefix()) {
                FetchEntryClassView::Session
            } else {
                FetchEntryClassView::Ignored
            },
        },
        EntryKind::Other => FetchEntryClassView::Ignored,
        EntryKind::File => if name == fetcher_lock_name() {
            FetchEntryClassView::StrayFetcherLock
        } else if ends_with(name, ".lock"@) {
            FetchEntryClassView::Lock { base: name.subrange(0, name.len() - ".lock"@.len()) }
        } else if ends_with(name, ".tmp"@) {
            FetchEntryClassView::Partial { base: name.subrange(0, name.len() - ".tmp"@.len()) }
        } else {
            FetchEntryClassView::File { base: name }
        },
    }
}

/// Says what the entry `name` of `fetch/` is.
pub fn classify_fetch_entry(name: &str, kind: EntryKind) -> (class: FetchEntryClass)
    ensures
        class@ == classify_spec(name@, kind),
{
    match kind {
        EntryKind::Dir => {
            match str_find(name, ".torrent-work-") {
                Some(at) => {
                    proof {
                        lemma_first_occurrence(name@, work_marker(), at as int);
                    }
                    let v = chars_of(name);
                    FetchEntryClass::WorkDir { base: string_of_range(&v, 0, at) }
                },
                None => {
                    if str_starts_with(name, ".torrent-session-") {
                        FetchEntryClass::Session
                    } else {
                        FetchEntryClass::Ignored
                    }
                },
            }
        },
        EntryKind::Other => FetchEntryClass::Ignored,
        EntryKind::File => {
            if str_eq(name, ".torrent-fetcher.lock") {
                return FetchEntryClass::StrayFetcherLock;
            }
            match str_strip_suffix(name, ".lock") {
                Some(base) => {
                    return FetchEntryClass::Lock { base };
                },
                None => {},
            }
            match str_strip_suffix(name, ".tmp") {
                Some(base) => FetchEntryClass::Partial { base },
                None => FetchEntryClass::File { base: String::from_str(name) },
            }
        },
    }
}

/// The first occurrence is the one before which there is none.
pub proof fn lemma_first_occurrence(s: Seq<char>, needle: Seq<char>, at: int)
    requires
        occurs_at(s, needle, at),
        forall|j: int| 0 <= j < at ==> !occurs_at(s, needle, j),
    ensures
        first_occurrence(s, needle) == Some(at),
{
    let k = choose|k: int|
        occurs_at(s, needle, k) && forall|j: int| 0 <= j < k ==> !occurs_at(s, needle, j);
    if k < at {
        assert(!occurs_at(s, needle, k));
    }
    if at < k {
        assert(!occurs_at(s, needle, at));
    }
}

/// An entry of the fetch directory.
#[derive(Debug)]
pub struct FetchEntry {
    pub name: String,
    pub kind: EntryKind,
}

/// What the fetch directory holds for one digest. Entries are named by
/// their place in the listing of the directory.
#[derive(Debug)]
pub struct FetchGroup {
    /// The digest.
    pub base: String,
    /// The cached file.
    pub file: Option<usize>,
    /// The partial downloads.
    pub partials: Vec<usize>,
    /// The torrent work directories.
    pub work_dirs: Vec<usize>,
}

/// The fetch directory, sorted out.
#[derive(Debug)]
pub struct FetchSurvey {
    /// One group for each digest that an entry belongs to, in the order
    /// in which the entries first name it.
    pub groups: Vec<FetchGroup>,
    /// The session directories.
    pub sessions: Vec<usize>,
    /// The lock files of torrent workers left outside their sessions.
    pub stray_locks: Vec<usize>,
}

/// What each entry is.
pub open spec fn classes_of(entries: Seq<FetchEntry>) -> Seq<FetchEntryClassView> {
    Seq::new(entries.len(), |i: int| classify_spec(entries[i].name@, entries[i].kind))
}

/// The digest that an entry belongs to.
pub open spec fn class_base(class: FetchEntryClassView) -> Option<Seq<char>> {
    match class {
        FetchEntryClassView::WorkDir { base } => Some(base),
        FetchEntryClassView::Lock { base } => Some(base),
        FetchEntryClassView::Partial { base } => Some(base),
        FetchEntryClassView::File { base } => Some(base),
        _ => None,
    }
}

/// The digest that each entry belongs to.
pub open spec fn class_bases(classes: Seq<FetchEntryClassView>) -> Seq<Option<Seq<char>>> {
    Seq::new(classes.len(), |i: int| class_base(classes[i]))
}

/// The places among the first `n` entries of those that are `want`.
pub open spec fn matching(classes: Seq<FetchEntryClassView>, n: int, want: FetchEntryClassView) -> Seq<
    usize,
>
    decreases n,
{
    if n <= 0 {
        Seq::empty()
    } else if classes[n - 1] == want {
        matching(classes, n - 1, want).push((n - 1) as usize)
    } else {
        matching(classes, n - 1, want)
    }
}

/// The last of the places, if there is one.
pub open spec fn last_of(places: Seq<usize>) -> Option<usize> {
    if places.len() == 0 {
        None
    } else {
        Some(places.last())
    }
}

/// The group holds what the listing holds for its digest.
pub open spec fn group_ok(classes: Seq<FetchEntryClassView>, g: FetchGroup) -> bool {
    let n = classes.len() as int;
    &&& named(class_bases(classes), g.base@)
    &&& g.file == last_of(matching(classes, n, FetchEntryClassView::File { base: g.base@ }))
    &&& g.partials@ == matching(classes, n, FetchEntryClassView::Partial { base: g.base@ })
    &&& g.work_dirs@ == matching(classes, n, FetchEntryClassView::WorkDir { base: g.base@ })
}

/// The digests of the groups.
pub open spec fn group_bases(groups: Seq<FetchGroup>) -> Seq<Seq<char>> {
    Seq::new(groups.len(), |i: int| groups[i].base@)
}

fn same_class(a: &FetchEntryClass, b: &FetchEntryClass) -> (r: bool)
    ensures
        r == (a@ == b@),
{
    match (a, b) {
        (FetchEntryClass::WorkDir { base: x }, FetchEntryClass::WorkDir { base: y }) => *x == *y,
        (FetchEntryClass::Lock { base: x }, FetchEntryClass::Lock { base: y }) => *x == *y,
        (FetchEntryClass::Partial { base: x }, FetchEntryClass::Partial { base: y }) => *x == *y,
        (FetchEntryClass::File { base: x }, FetchEntryClass::File { base: y }) => *x == *y,
        (FetchEntryClass::Session, FetchEntryClass::Session) => true,
        (FetchEntryClass::StrayFetcherLock, FetchEntryClass::StrayFetcherLock) => true,
        (FetchEntryClass::Ignored, FetchEntryClass::Ignored) => true,
        _ => false,
    }
}

/// The values of a list of classes.
pub open spec fn classes_view(v: Seq<FetchEntryClass>) -> Seq<FetchEntryClassView> {
    Seq::new(v.len(), |i: int| v[i]@)
}

fn places_of(classes: &Vec<FetchEntryClass>, want: &FetchEntryClass) -> (out: Vec<usize>)
    ensures
        out@ == matching(classes_view(classes@), classes@.len() as int, want@),
{
    let ghost all = classes_view(classes@);
    let mut out: Vec<usize> = Vec::new();
    let mut i: usize = 0;
    while i < classes.len()
        invariant
            i <= classes@.len(),
            all == classes_view(classes@),
            out@ == matching(all, i as int, want@),
        decreases classes@.len() - i,
    {
        assert(all[i as int] == classes@[i as int]@);
        if same_class(&classes[i], want) {
            out.push(i);
        }
        i = i + 1;
    }
    out
}

fn base_of(class: &FetchEntryClass) -> (r: Option<String>)
    ensures
        opt_view(r) == class_base(class@),
{
    match class {
        FetchEntryClass::WorkDir { base } => Some(base.clone()),
        FetchEntryClass::Lock { base } => Some(base.clone()),
        FetchEntryClass::Partial { base } => Some(base.clone()),
        FetchEntryClass::File { base } => Some(base.clone()),
        _ => None,
    }
}

/// Sorts out the listing of the fetch directory: the entries of each
/// digest together, the session directories, and the stray lock files.
pub fn survey_fetch_entries(entries: &Vec<FetchEntry>) -> (survey: FetchSurvey)
    ensures
        group_bases(survey.groups@) == distinct_spec(
            class_bases(classes_of(entries@)),
            entries@.len() as int,
        ),
        group_bases(survey.groups@).no_duplicates(),
        forall|j: int|
            0 <= j < survey.groups@.len() ==> group_ok(
                classes_of(entries@),
                #[trigger] survey.groups@[j],
            ),
        forall|k: int|
            0 <= k < entries@.len() ==> match #[trigger] class_bases(classes_of(entries@))[k] {
                Some(base) => group_bases(survey.groups@).contains(base),
                None => true,
            },
        survey.sessions@ == matching(
            classes_of(entries@),
            entries@.len() as int,
            FetchEntryClassView::Session,
        ),
        survey.stray_locks@ == matching(
            classes_of(entries@),
            entries@.len() as int,
            FetchEntryClassView::StrayFetcherLock,
        ),
{
    let mut classes: Vec<FetchEntryClass> = Vec::new();
    let mut found: Vec<Option<String>> = Vec::new();
    let mut i: usize = 0;
    while i < entries.len()
        invariant
            i <= entries@.len(),
            classes@.len() == i,
            found@.len() == i,
            forall|k: int|
                0 <= k < i ==> (#[trigger] classes@[k])@ == classify_spec(
                    entries@[k].name@,
                    entries@[k].kind,
                ),
            forall|k: int| 0 <= k < i ==> opt_view(#[trigger] found@[k]) == class_base(classes@[k]@),
        decreases entries@.len() - i,
    {
        let class = classify_fetch_entry(entries[i].name.as_str(), entries[i].kind);
        found.push(base_of(&class));
        classes.push(class);
        i = i + 1;
    }
    let ghost all = classes_of(entries@);
    assert(classes_view(classes@) =~= all);
    assert(opts_view(found@) =~= class_bases(all));
    proof {
        lemma_distinct(class_bases(all), entries@.len() as int);
    }
    let bases = distinct_texts(&found);
    let sessions = places_of(&classes, &FetchEntryClass::Session);
    let stray_locks = places_of(&classes, &FetchEntryClass::StrayFetcherLock);
    let mut groups: Vec<FetchGroup> = Vec::new();
    let mut j: usize = 0;
    while j < bases.len()
        invariant
            j <= bases@.len(),
            all == classes_view(classes@),
            classes@.len() == entries@.len(),
            groups@.len() == j,
            forall|g: int| 0 <= g < j ==> (#[trigger] groups@[g]).base@ == bases@[g]@,
            forall|g: int| 0 <= g < j ==> group_ok(all, #[trigger] groups@[g]),
            forall|g: int|
                0 <= g < bases@.len() ==> named(class_bases(all), #[trigger] strings_view(bases@)[g]),
        decreases bases@.len() - j,
    {
        let base = bases[j].clone();
        assert(strings_view(bases@)[j as int] == base@);
        let files = places_of(&classes, &FetchEntryClass::File { base: base.clone() });
        let file = if files.len() == 0 {
            None
        } else {
            Some(files[files.len() - 1])
        };
        let partials = places_of(&classes, &FetchEntryClass::Partial { base: base.clone() });
        let work_dirs = places_of(&classes, &FetchEntryClass::WorkDir { base: base.clone() });
        groups.push(FetchGroup { base, file, partials, work_dirs });
        j = j + 1;
    }
    proof {
        assert(group_bases(groups@) =~= strings_view(bases@));
    }
    FetchSurvey { groups, sessions, stray_locks }
}

} // verus!
