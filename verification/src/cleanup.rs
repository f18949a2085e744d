//! The decisions of the cleanup sweeper.
//!
//! The sweeper removes what is older than an expiry. It looks at the store
//! (what exists, how old it is, which locks are held) and hands what it saw
//! to the functions here, which say what is to be removed and count it.

use vstd::prelude::*;
use crate::store::{join_spec, seed_lock_path, PackageStore};

verus! {

/// How many entries of each kind a sweep removed.
#[derive(Debug)]
pub struct CleanupStats {
    pub package_artifacts_removed: usize,
    pub package_build_dirs_removed: usize,
    pub package_lock_files_removed: usize,
    pub fetch_files_removed: usize,
    pub fetch_partials_removed: usize,
    pub fetch_lock_files_removed: usize,
    pub torrent_dirs_removed: usize,
    pub torrent_work_dirs_removed: usize,
    pub torrent_session_dirs_removed: usize,
}

impl Default for CleanupStats {
    fn default() -> (s: Self)
        ensures
            s.total() == 0,
    {
        CleanupStats {
            package_artifacts_removed: 0,
            package_build_dirs_removed: 0,
            package_lock_files_removed: 0,
            fetch_files_removed: 0,
            fetch_partials_removed: 0,
            fetch_lock_files_removed: 0,
            torrent_dirs_removed: 0,
            torrent_work_dirs_removed: 0,
            torrent_session_dirs_removed: 0,
        }
    }
}

/// A counter one higher, unless it is at the top of its range.
pub open spec fn bump(n: usize, by: bool) -> usize {
    if by && n < usize::MAX {
        (n + 1) as usize
    } else {
        n
    }
}

/// A counter raised by `by`, or at the top of its range.
pub open spec fn raise(n: usize, by: nat) -> usize {
    if n + by <= usize::MAX {
        (n + by) as usize
    } else {
        usize::MAX
    }
}

fn bumped(n: usize, by: bool) -> (r: usize)
    ensures
        r == bump(n, by),
{
    if by && n < usize::MAX {
        n + 1
    } else {
        n
    }
}

fn raised(n: usize, by: usize) -> (r: usize)
    ensures
        r == raise(n, by as nat),
{
    if by <= usize::MAX - n {
        n + by
    } else {
        usize::MAX
    }
}

impl CleanupStats {
    /// The number of entries removed, of all kinds together.
    pub open spec fn total(&self) -> int {
        self.package_artifacts_removed + self.package_build_dirs_removed
            + self.package_lock_files_removed + self.fetch_files_removed
            + self.fetch_partials_removed + self.fetch_lock_files_removed
            + self.torrent_dirs_removed + self.torrent_work_dirs_removed
            + self.torrent_session_dirs_removed
    }

    /// Counts what a package plan removes.
    pub fn record_package(&mut self, plan: &PackagePlan)
        ensures
            *final(self) == (CleanupStats {
                package_artifacts_removed: bump(
                    old(self).package_artifacts_removed,
                    plan.remove_artifact,
                ),
                package_build_dirs_removed: bump(
                    old(self).package_build_dirs_removed,
                    plan.remove_build_dir,
                ),
                package_lock_files_removed: bump(
                    old(self).package_lock_files_removed,
                    plan.remove_lock,
                ),
                ..*old(self)
            }),
    {
        self.package_artifacts_removed = bumped(
            self.package_artifacts_removed,
            plan.remove_artifact,
        );
        self.package_build_dirs_removed = bumped(
            self.package_build_dirs_removed,
            plan.remove_build_dir,
        );
        self.package_lock_files_removed = bumped(
            self.package_lock_files_removed,
            plan.remove_lock,
        );
    }

    /// Counts what a fetch plan removes: a removed work directory counts
    /// as a partial download too.
    pub fn record_fetch_group(&mut self, plan: &FetchGroupPlan)
        ensures
            *final(self) == (CleanupStats {
                fetch_files_removed: bump(old(self).fetch_files_removed, plan.remove_file),
                fetch_partials_removed: raise(
                    raise(old(self).fetch_partials_removed, count_true(plan.remove_partials@)),
                    count_true(plan.remove_work_dirs@),
                ),
                torrent_work_dirs_removed: raise(
                    old(self).torrent_work_dirs_removed,
                    count_true(plan.remove_work_dirs@),
                ),
                fetch_lock_files_removed: bump(
                    old(self).fetch_lock_files_removed,
                    plan.remove_lock,
                ),
                ..*old(self)
            }),
    {
        let partials = count_flags(&plan.remove_partials);
        let work_dirs = count_flags(&plan.remove_work_dirs);
        self.fetch_files_removed = bumped(self.fetch_files_removed, plan.remove_file);
        self.fetch_partials_removed = raised(
            raised(self.fetch_partials_removed, partials),
            work_dirs,
        );
        self.torrent_work_dirs_removed = raised(self.torrent_work_dirs_removed, work_dirs);
        self.fetch_lock_files_removed = bumped(self.fetch_lock_files_removed, plan.remove_lock);
    }

    /// Counts one removed work directory, which counts as a partial download too.
    pub fn record_work_dir(&mut self)
        ensures
            *final(self) == (CleanupStats {
                fetch_partials_removed: bump(old(self).fetch_partials_removed, true),
                torrent_work_dirs_removed: bump(old(self).torrent_work_dirs_removed, true),
                ..*old(self)
            }),
    {
        self.fetch_partials_removed = bumped(self.fetch_partials_removed, true);
        self.torrent_work_dirs_removed = bumped(self.torrent_work_dirs_removed, true);
    }

    /// Counts one removed lock file of the fetch directory.
    pub fn record_fetch_lock(&mut self)
        ensures
            *final(self) == (CleanupStats {
                fetch_lock_files_removed: bump(old(self).fetch_lock_files_removed, true),
                ..*old(self)
            }),
    {
        self.fetch_lock_files_removed = bumped(self.fetch_lock_files_removed, true);
    }

    /// Counts what the plan for a session removes: a removed download
    /// directory counts as a work directory and as a partial download.
    pub fn record_session(&mut self, plan: &SessionPlan)
        ensures
            *final(self) == (CleanupStats {
                fetch_partials_removed: raise(
                    old(self).fetch_partials_removed,
                    count_true(plan.remove_downloads@),
                ),
                torrent_work_dirs_removed: raise(
                    old(self).torrent_work_dirs_removed,
                    count_true(plan.remove_downloads@),
                ),
                torrent_session_dirs_removed: bump(
                    old(self).torrent_session_dirs_removed,
                    plan.remove_dir,
                ),
                ..*old(self)
            }),
    {
        let downloads = count_flags(&plan.remove_downloads);
        self.fetch_partials_removed = raised(self.fetch_partials_removed, downloads);
        self.torrent_work_dirs_removed = raised(self.torrent_work_dirs_removed, downloads);
        self.torrent_session_dirs_removed = bumped(
            self.torrent_session_dirs_removed,
            plan.remove_dir,
        );
    }

    /// Counts one removed session directory.
    pub fn record_session_dir(&mut self)
        ensures
            *final(self) == (CleanupStats {
                torrent_session_dirs_removed: bump(old(self).torrent_session_dirs_removed, true),
                ..*old(self)
            }),
    {
        self.torrent_session_dirs_removed = bumped(self.torrent_session_dirs_removed, true);
    }

    /// Counts one removed mirror directory.
    pub fn record_torrent_dir(&mut self)
        ensures
            *final(self) == (CleanupStats {
                torrent_dirs_removed: bump(old(self).torrent_dirs_removed, true),
                ..*old(self)
            }),
    {
        self.torrent_dirs_removed = bumped(self.torrent_dirs_removed, true);
    }
}

/// How many of the flags are set.
pub open spec fn count_true(flags: Seq<bool>) -> nat
    decreases flags.len(),
{
    if flags.len() == 0 {
        0
    } else {
        count_true(flags.drop_last()) + if flags.last() {
            1nat
        } else {
            0nat
        }
    }
}

fn count_flags(flags: &Vec<bool>) -> (n: usize)
    ensures
        n == count_true(flags@),
{
    let mut n: usize = 0;
    let mut i: usize = 0;
    assert(flags@.take(0) =~= Seq::<bool>::empty());
    while i < flags.len()
        invariant
            i <= flags@.len(),
            n == count_true(flags@.take(i as int)),
            n <= i,
        decreases flags@.len() - i,
    {
        proof {
            assert(flags@.take(i + 1).drop_last() =~= flags@.take(i as int));
        }
        if flags[i] {
            n = n + 1;
        }
        i = i + 1;
    }
    assert(flags@.take(flags@.len() as int) =~= flags@);
    n
}

/// Whether something last modified at `modified` is older at `now` than
/// `expiry`, all in nanoseconds. What has no modification time, or one in
/// the future, is not expired.
pub open spec fn expired_spec(now: u128, modified: Option<u128>, expiry: u128) -> bool {
    match modified {
        Some(m) => now >= m && now - m > expiry,
        None => false,
    }
}

/// Whether something last modified at `modified` is older at `now` than `expiry`.
pub fn is_expired(now: u128, modified: Option<u128>, expiry: u128) -> (expired: bool)
    ensures
        expired == expired_spec(now, modified, expiry),
{
    match modified {
        Some(m) => now >= m && now - m > expiry,
        None => false,
    }
}

/// What the sweeper saw of a path.
#[derive(Clone, Copy, Debug, PartialEq, Eq, Structural)]
pub enum EntryState {
    /// Nothing is there.
    Missing,
    /// It is there and not older than the expiry.
    Fresh,
    /// It is there and older than the expiry.
    Expired,
}

/// The state of a path that is there or not, by its modification time.
pub open spec fn entry_state_spec(
    present: bool,
    now: u128,
    modified: Option<u128>,
    expiry: u128,
) -> EntryState {
    if !present {
        EntryState::Missing
    } else if expired_spec(now, modified, expiry) {
        EntryState::Expired
    } else {
        EntryState::Fresh
    }
}

/// What the sweeper saw of a path whose modification time is `modified`, if it is there.
pub fn entry_state(present: bool, now: u128, modified: Option<u128>, expiry: u128) -> (s:
    EntryState)
    ensures
        s == entry_state_spec(present, now, modified, expiry),
{
    if !present {
        EntryState::Missing
    } else if is_expired(now, modified, expiry) {
        EntryState::Expired
    } else {
        EntryState::Fresh
    }
}

/// What `pkgs/` holds for one base name, seen under the package lock.
#[derive(Clone, Copy, Debug, PartialEq, Eq, Structural)]
pub struct PackageEntries {
    pub artifact: EntryState,
    pub build_dir: bool,
    pub lock: EntryState,
}

/// What the sweeper removes for one base name.
#[derive(Clone, Copy, Debug, PartialEq, Eq, Structural)]
pub struct PackagePlan {
    pub remove_artifact: bool,
    pub remove_build_dir: bool,
    pub remove_lock: bool,
}

/// The rule for one package: an expired artifact goes; a build directory
/// goes whenever there is one; the lock file goes when it is expired and
/// neither artifact nor build directory is left.
pub open spec fn package_plan_spec(seen: PackageEntries) -> PackagePlan {
    PackagePlan {
        remove_artifact: seen.artifact == EntryState::Expired,
        remove_build_dir: seen.build_dir,
        remove_lock: seen.artifact != EntryState::Fresh && seen.lock == EntryState::Expired,
    }
}

/// What `pkgs/` holds for a base name after the plan for it was carried
/// out. A lock file that was missing was made when the lock was taken.
pub open spec fn package_after(seen: PackageEntries) -> PackageEntries {
    let plan = package_plan_spec(seen);
    PackageEntries {
        artifact: if plan.remove_artifact {
            EntryState::Missing
        } else {
            seen.artifact
        },
        build_dir: false,
        lock: if plan.remove_lock {
            EntryState::Missing
        } else if seen.lock == EntryState::Missing {
            EntryState::Fresh
        } else {
            seen.lock
        },
    }
}

/// Decides what to remove of one package, seen under its lock.
pub fn plan_package_cleanup(seen: PackageEntries) -> (plan: PackagePlan)
    ensures
        plan == package_plan_spec(seen),
{
    PackagePlan {
        remove_artifact: seen.artifact == EntryState::Expired,
        remove_build_dir: seen.build_dir,
        remove_lock: seen.artifact != EntryState::Fresh && seen.lock == EntryState::Expired,
    }
}

/// A plan that removes nothing.
pub open spec fn package_plan_idle(plan: PackagePlan) -> bool {
    !plan.remove_artifact && !plan.remove_build_dir && !plan.remove_lock
}

/// Cleanup of packages is idempotent: on what a sweep has left of a
/// package, with modification times unchanged, a second sweep removes
/// nothing.
pub proof fn lemma_package_cleanup_idempotent(seen: PackageEntries)
    ensures
        package_plan_idle(package_plan_spec(package_after(seen))),
{
}

/// Whether a lock could be taken.
#[derive(Clone, Copy, Debug, PartialEq, Eq, Structural)]
pub enum LockProbe {
    /// There is no lock file.
    Missing,
    /// The lock was taken: nobody else holds it.
    Acquired,
    /// Somebody else holds the lock.
    Contested,
}

/// A torrent session is live while somebody holds its lock.
pub fn session_is_live(probe: LockProbe) -> (live: bool)
    ensures
        live == (probe == LockProbe::Contested),
{
    probe == LockProbe::Contested
}

/// Whether any session is live.
pub fn any_session_live(probes: &Vec<LockProbe>) -> (live: bool)
    ensures
        live == exists|i: int| 0 <= i < probes@.len() && probes@[i] == LockProbe::Contested,
{
    let mut i: usize = 0;
    while i < probes.len()
        invariant
            i <= probes@.len(),
            forall|k: int| 0 <= k < i ==> probes@[k] != LockProbe::Contested,
        decreases probes@.len() - i,
    {
        if session_is_live(probes[i]) {
            return true;
        }
        i = i + 1;
    }
    false
}

/// What `fetch/` holds for one digest, seen under the fetch lock.
#[derive(Debug)]
pub struct FetchGroupEntries {
    /// The cached file.
    pub file: EntryState,
    /// The partial downloads.
    pub partials: Vec<EntryState>,
    /// The torrent work directories.
    pub work_dirs: Vec<EntryState>,
    /// The lock file.
    pub lock: EntryState,
}

/// What the sweeper removes for one digest.
#[derive(Debug)]
pub struct FetchGroupPlan {
    pub remove_file: bool,
    /// For each partial download, whether it goes.
    pub remove_partials: Vec<bool>,
    /// For each work directory, whether it goes.
    pub remove_work_dirs: Vec<bool>,
    pub remove_lock: bool,
}

/// Whether one of the states is that of something present.
pub open spec fn any_present(states: Seq<EntryState>) -> bool {
    exists|i: int| 0 <= i < states.len() && states[i] != EntryState::Missing
}

/// Whether one of the states is `Fresh`.
pub open spec fn any_fresh(states: Seq<EntryState>) -> bool {
    exists|i: int| 0 <= i < states.len() && states[i] == EntryState::Fresh
}

/// For each state, whether it is `Expired`.
pub open spec fn expired_flags(states: Seq<EntryState>) -> Seq<bool> {
    Seq::new(states.len(), |i: int| states[i] == EntryState::Expired)
}

/// For each state, `false`.
pub open spec fn no_flags(states: Seq<EntryState>) -> Seq<bool> {
    Seq::new(states.len(), |i: int| false)
}

/// The rule for one digest. The expired file and the expired partial
/// downloads go. Work directories may belong to a live torrent session:
/// while one is live they all stay, else the expired ones go. The lock file
/// goes when it is expired and nothing of the group is left.
pub open spec fn fetch_plan_spec(
    file: EntryState,
    partials: Seq<EntryState>,
    work_dirs: Seq<EntryState>,
    lock: EntryState,
    session_live: bool,
) -> (bool, Seq<bool>, Seq<bool>, bool) {
    let left = file == EntryState::Fresh || any_fresh(partials) || if session_live {
        any_present(work_dirs)
    } else {
        any_fresh(work_dirs)
    };
    (
        file == EntryState::Expired,
        expired_flags(partials),
        if session_live {
            no_flags(work_dirs)
        } else {
            expired_flags(work_dirs)
        },
        !left && lock == EntryState::Expired,
    )
}

fn flags_of(states: &Vec<EntryState>, keep_all: bool) -> (r: (Vec<bool>, bool))
    ensures
        r.0@ == if keep_all {
            no_flags(states@)
        } else {
            expired_flags(states@)
        },
        r.1 == if keep_all {
            any_present(states@)
        } else {
            any_fresh(states@)
        },
{
    let mut flags: Vec<bool> = Vec::new();
    let mut left = false;
    let mut i: usize = 0;
    while i < states.len()
        invariant
            i <= states@.len(),
            flags@.len() == i,
            forall|k: int|
                0 <= k < i ==> flags@[k] == (!keep_all && states@[k] == EntryState::Expired),
            left == exists|k: int|
                0 <= k < i && if keep_all {
                    states@[k] != EntryState::Missing
                } else {
                    states@[k] == EntryState::Fresh
                },
        decreases states@.len() - i,
    {
        let s = states[i];
        let stays = if keep_all {
            s != EntryState::Missing
        } else {
            s == EntryState::Fresh
        };
        flags.push(!keep_all && s == EntryState::Expired);
        if stays {
            left = true;
        }
        i = i + 1;
    }
    proof {
        if keep_all {
            assert(flags@ =~= no_flags(states@));
        } else {
            assert(flags@ =~= expired_flags(states@));
        }
    }
    (flags, left)
}

/// Decides what to remove of one digest, seen under its lock.
pub fn plan_fetch_group(seen: &FetchGroupEntries, session_live: bool) -> (plan: FetchGroupPlan)
    ensures
        (plan.remove_file, plan.remove_partials@, plan.remove_work_dirs@, plan.remove_lock)
            == fetch_plan_spec(
            seen.file,
            seen.partials@,
            seen.work_dirs@,
            seen.lock,
            session_live,
        ),
{
    let (remove_partials, partials_left) = flags_of(&seen.partials, false);
    let (remove_work_dirs, work_left) = flags_of(&seen.work_dirs, session_live);
    let left = seen.file == EntryState::Fresh || partials_left || work_left;
    FetchGroupPlan {
        remove_file: seen.file == EntryState::Expired,
        remove_partials,
        remove_work_dirs,
        remove_lock: !left && seen.lock == EntryState::Expired,
    }
}

/// The state of an entry after a plan that removes it or not.
pub open spec fn state_after(state: EntryState, removed: bool) -> EntryState {
    if removed {
        EntryState::Missing
    } else {
        state
    }
}

/// The states of entries after a plan.
pub open spec fn states_after(states: Seq<EntryState>, removed: Seq<bool>) -> Seq<EntryState> {
    Seq::new(states.len(), |i: int| state_after(states[i], removed[i]))
}

/// Cleanup of fetches is idempotent: on what a sweep has left of a digest,
/// with modification times and sessions unchanged, a second sweep removes
/// nothing.
pub proof fn lemma_fetch_cleanup_idempotent(
    file: EntryState,
    partials: Seq<EntryState>,
    work_dirs: Seq<EntryState>,
    lock: EntryState,
    session_live: bool,
)
    ensures
        ({
            let first = fetch_plan_spec(file, partials, work_dirs, lock, session_live);
            let lock_after = if first.3 {
                EntryState::Missing
            } else if lock == EntryState::Missing {
                EntryState::Fresh
            } else {
                lock
            };
            let second = fetch_plan_spec(
                state_after(file, first.0),
                states_after(partials, first.1),
                states_after(work_dirs, first.2),
                lock_after,
                session_live,
            );
            &&& !second.0
            &&& count_true(second.1) == 0
            &&& count_true(second.2) == 0
            &&& !second.3
        }),
{
    let first = fetch_plan_spec(file, partials, work_dirs, lock, session_live);
    let partials_after = states_after(partials, first.1);
    let work_after = states_after(work_dirs, first.2);
    let lock_after = if first.3 {
        EntryState::Missing
    } else if lock == EntryState::Missing {
        EntryState::Fresh
    } else {
        lock
    };
    let second = fetch_plan_spec(state_after(file, first.0), partials_after, work_after, lock_after, session_live);
    lemma_count_true_none(second.1);
    lemma_count_true_none(second.2);
    if second.3 {
        // the lock stayed in the first sweep, so something was left then, and still is
        assert(lock == EntryState::Expired && !first.3);
        if file == EntryState::Fresh {
        } else if any_fresh(partials) {
            let i = choose|i: int| 0 <= i < partials.len() && partials[i] == EntryState::Fresh;
            assert(partials_after[i] == EntryState::Fresh);
        } else if session_live {
            let i = choose|i: int| 0 <= i < work_dirs.len() && work_dirs[i] != EntryState::Missing;
            assert(work_after[i] != EntryState::Missing);
        } else {
            let i = choose|i: int| 0 <= i < work_dirs.len() && work_dirs[i] == EntryState::Fresh;
            assert(work_after[i] == EntryState::Fresh);
        }
    }
}

/// Flags that are all unset count to nothing.
pub proof fn lemma_count_true_none(flags: Seq<bool>)
    requires
        forall|i: int| 0 <= i < flags.len() ==> !flags[i],
    ensures
        count_true(flags) == 0,
    decreases flags.len(),
{
    if flags.len() > 0 {
        lemma_count_true_none(flags.drop_last());
    }
}

/// An expired entry goes, nothing else: the rule for work directories whose
/// group could not be locked, for the download directories of a dead
/// session, for a dead session's own directory, for stray lock files and
/// for the directories of the torrent mirror.
pub fn remove_if_expired(state: EntryState) -> (remove: bool)
    ensures
        remove == (state == EntryState::Expired),
{
    state == EntryState::Expired
}

/// Sweeping what stands alone is idempotent: what a sweep has left is
/// missing or not expired, and a second sweep leaves it alone.
pub proof fn lemma_single_cleanup_idempotent(state: EntryState)
    ensures
        state_after(state, state == EntryState::Expired) != EntryState::Expired,
{
}

/// What stands under a lock is swept only by who could take the lock: a
/// package or a digest whose lock somebody else holds is left alone.
pub fn may_sweep(lock: LockProbe) -> (sweep: bool)
    ensures
        sweep == (lock != LockProbe::Contested),
{
    lock != LockProbe::Contested
}

/// Which work directories go in the sweep of those whose digest could not
/// be locked: the expired ones, but none while a torrent session is live.
pub fn plan_orphans(work_dirs: &Vec<EntryState>, session_live: bool) -> (remove: Vec<bool>)
    ensures
        remove@ == if session_live {
            no_flags(work_dirs@)
        } else {
            expired_flags(work_dirs@)
        },
{
    flags_of(work_dirs, session_live).0
}

/// What the sweeper removes of one torrent session.
#[derive(Debug)]
pub struct SessionPlan {
    /// For each download directory of the session, whether it goes.
    pub remove_downloads: Vec<bool>,
    /// Whether the session directory goes.
    pub remove_dir: bool,
}

/// Decides what to remove of one torrent session: nothing of a live
/// session; of a dead one the expired download directories, and the
/// session directory itself if it is expired.
pub fn plan_session(lock: LockProbe, downloads: &Vec<EntryState>, dir: EntryState) -> (plan:
    SessionPlan)
    ensures
        plan.remove_downloads@ == if lock == LockProbe::Contested {
            no_flags(downloads@)
        } else {
            expired_flags(downloads@)
        },
        plan.remove_dir == (lock != LockProbe::Contested && dir == EntryState::Expired),
{
    let live = session_is_live(lock);
    SessionPlan {
        remove_downloads: flags_of(downloads, live).0,
        remove_dir: !live && dir == EntryState::Expired,
    }
}

/// The torrent mirror is swept only while no seeder runs.
pub fn sweep_torrent_mirror(seeder_lock: LockProbe) -> (sweep: bool)
    ensures
        sweep == (seeder_lock != LockProbe::Contested),
{
    seeder_lock != LockProbe::Contested
}

/// Which parts of the store a sweep covers.
#[derive(Clone, Copy, Debug, PartialEq, Eq, Structural)]
pub struct CleanupOptions {
    /// Artifacts, build directories and package locks.
    pub packages: bool,
    /// Cached fetch files, partial downloads and torrent work.
    pub fetched: bool,
    /// The torrent mirror.
    pub torrents: bool,
}

/// One part of a sweep of the store.
#[derive(Debug)]
pub enum Sweep {
    /// The packages in the directory `dir`.
    Packages { dir: String },
    /// The fetch cache in the directory `dir`.
    Fetches { dir: String },
    /// The torrent mirror in the directory `dir`, unless a seeder holds `seeder_lock`.
    Torrents { dir: String, seeder_lock: String },
}

/// The mathematical value of a [`Sweep`].
pub enum SweepView {
    Packages { dir: Seq<char> },
    Fetches { dir: Seq<char> },
    Torrents { dir: Seq<char>, seeder_lock: Seq<char> },
}

impl View for Sweep {
    type V = SweepView;

    open spec fn view(&self) -> SweepView {
        match self {
            Sweep::Packages { dir } => SweepView::Packages { dir: dir@ },
            Sweep::Fetches { dir } => SweepView::Fetches { dir: dir@ },
            Sweep::Torrents { dir, seeder_lock } => SweepView::Torrents {
                dir: dir@,
                seeder_lock: seeder_lock@,
            },
        }
    }
}

/// The values of a list of sweeps.
pub open spec fn sweeps_view(v: Seq<Sweep>) -> Seq<SweepView> {
    Seq::new(v.len(), |i: int| v[i]@)
}

/// The parts of a sweep that `options` ask for: packages, then the fetch
/// cache, then the torrent mirror.
pub open spec fn cleanup_spec(
    store_root: Seq<char>,
    fetch_root: Seq<char>,
    torrent_root: Seq<char>,
    base_root: Seq<char>,
    options: CleanupOptions,
) -> Seq<SweepView> {
    (if options.packages {
        seq![SweepView::Packages { dir: store_root }]
    } else {
        Seq::empty()
    }) + (if options.fetched {
        seq![SweepView::Fetches { dir: fetch_root }]
    } else {
        Seq::empty()
    }) + (if options.torrents {
        seq![
            SweepView::Torrents {
                dir: torrent_root,
                seeder_lock: join_spec(join_spec(base_root, "seed"@), "seeder.lock"@),
            },
        ]
    } else {
        Seq::empty()
    })
}

impl PackageStore {
    /// Lays out a sweep of the store: the parts that `options` ask for,
    /// in the order in which they are swept.
    pub fn cleanup(&self, options: CleanupOptions) -> (sweeps: Vec<Sweep>)
        ensures
            sweeps_view(sweeps@) == cleanup_spec(
                self.store_root@,
                self.fetch_root@,
                self.torrent_root@,
                self.base_root@,
                options,
            ),
    {
        let mut sweeps: Vec<Sweep> = Vec::new();
        if options.packages {
            sweeps.push(Sweep::Packages { dir: self.store_root.clone() });
        }
        if options.fetched {
            sweeps.push(Sweep::Fetches { dir: self.fetch_root.clone() });
        }
        if options.torrents {
            let seed_root = self.seed_root();
            sweeps.push(
                Sweep::Torrents {
                    dir: self.torrent_root.clone(),
                    seeder_lock: seed_lock_path(seed_root.as_str()),
                },
            );
        }
        assert(sweeps_view(sweeps@) =~= cleanup_spec(
            self.store_root@,
            self.fetch_root@,
            self.torrent_root@,
            self.base_root@,
            options,
        ));
        sweeps
    }
}

} // verus!
