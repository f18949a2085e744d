use magpkg::cleanup::{
    any_session_live, entry_state, is_expired, plan_fetch_group, plan_package_cleanup,
    remove_if_expired, session_is_live, sweep_torrent_mirror, CleanupStats, EntryState,
    FetchGroupEntries, LockProbe, PackageEntries, PackagePlan,
};
use magpkg::survey::{
    classify_fetch_entry, discover_bases, survey_fetch_entries, EntryKind, FetchEntry,
    FetchEntryClass,
};
use magpkg::cleanup::EntryState::{Expired, Fresh, Missing};

#[test]
fn expiry_is_strictly_older_than_the_window() {
    assert!(is_expired(100, Some(10), 89));
    assert!(!is_expired(100, Some(10), 90));
    assert!(!is_expired(100, Some(10), 91));
    assert!(!is_expired(100, Some(200), 0));
    assert!(!is_expired(100, None, 0));
    assert!(is_expired(100, Some(99), 0));
    assert!(!is_expired(100, Some(100), 0));
}

#[test]
fn entry_states() {
    assert_eq!(entry_state(false, 100, Some(1), 0), EntryState::Missing);
    assert_eq!(entry_state(true, 100, Some(1), 10), EntryState::Expired);
    assert_eq!(entry_state(true, 100, Some(95), 10), EntryState::Fresh);
    assert_eq!(entry_state(true, 100, None, 10), EntryState::Fresh);
}

fn plan(artifact: EntryState, build_dir: bool, lock: EntryState) -> PackagePlan {
    plan_package_cleanup(PackageEntries { artifact, build_dir, lock })
}

#[test]
fn package_plans() {
    assert_eq!(
        plan(Expired, true, Expired),
        PackagePlan { remove_artifact: true, remove_build_dir: true, remove_lock: true }
    );
    assert_eq!(
        plan(Fresh, true, Expired),
        PackagePlan { remove_artifact: false, remove_build_dir: true, remove_lock: false }
    );
    assert_eq!(
        plan(Missing, false, Expired),
        PackagePlan { remove_artifact: false, remove_build_dir: false, remove_lock: true }
    );
    assert_eq!(
        plan(Expired, false, Fresh),
        PackagePlan { remove_artifact: true, remove_build_dir: false, remove_lock: false }
    );
    assert_eq!(
        plan(Missing, false, Missing),
        PackagePlan { remove_artifact: false, remove_build_dir: false, remove_lock: false }
    );
}

#[test]
fn a_second_sweep_of_a_package_removes_nothing() {
    for artifact in [Missing, Fresh, Expired] {
        for build_dir in [false, true] {
            for lock in [Missing, Fresh, Expired] {
                let first = plan(artifact, build_dir, lock);
                let artifact_after = if first.remove_artifact { Missing } else { artifact };
                let lock_after = if first.remove_lock {
                    Missing
                } else if lock == Missing {
                    Fresh
                } else {
                    lock
                };
                let second = plan(artifact_after, false, lock_after);
                assert_eq!(
                    second,
                    PackagePlan { remove_artifact: false, remove_build_dir: false, remove_lock: false }
                );
            }
        }
    }
}

#[test]
fn sessions_are_live_while_their_lock_is_held() {
    assert!(session_is_live(LockProbe::Contested));
    assert!(!session_is_live(LockProbe::Acquired));
    assert!(!session_is_live(LockProbe::Missing));
    assert!(any_session_live(&vec![LockProbe::Acquired, LockProbe::Contested]));
    assert!(!any_session_live(&vec![LockProbe::Acquired, LockProbe::Missing]));
    assert!(!any_session_live(&Vec::new()));
    assert!(sweep_torrent_mirror(LockProbe::Acquired));
    assert!(sweep_torrent_mirror(LockProbe::Missing));
    assert!(!sweep_torrent_mirror(LockProbe::Contested));
    assert!(remove_if_expired(EntryState::Expired));
    assert!(!remove_if_expired(EntryState::Fresh));
    assert!(!remove_if_expired(EntryState::Missing));
}

#[test]
fn fetch_group_plans() {
    let seen = FetchGroupEntries {
        file: Expired,
        partials: vec![Expired, Fresh, Missing],
        work_dirs: vec![Expired, Expired],
        lock: Expired,
    };
    let plan = plan_fetch_group(&seen, false);
    assert!(plan.remove_file);
    assert_eq!(plan.remove_partials, vec![true, false, false]);
    assert_eq!(plan.remove_work_dirs, vec![true, true]);
    assert!(!plan.remove_lock);

    let live = plan_fetch_group(&seen, true);
    assert_eq!(live.remove_work_dirs, vec![false, false]);
    assert!(!live.remove_lock);

    let gone = FetchGroupEntries { file: Expired, partials: vec![Expired], work_dirs: vec![], lock: Expired };
    assert!(plan_fetch_group(&gone, false).remove_lock);
    let held = FetchGroupEntries { file: Missing, partials: vec![], work_dirs: vec![Expired], lock: Expired };
    assert!(plan_fetch_group(&held, false).remove_lock);
    assert!(!plan_fetch_group(&held, true).remove_lock);
    let fresh_lock = FetchGroupEntries { file: Missing, partials: vec![], work_dirs: vec![], lock: Fresh };
    assert!(!plan_fetch_group(&fresh_lock, false).remove_lock);
    let kept = FetchGroupEntries { file: Fresh, partials: vec![], work_dirs: vec![], lock: Expired };
    let plan = plan_fetch_group(&kept, false);
    assert!(!plan.remove_file && !plan.remove_lock);
}

#[test]
fn a_second_sweep_of_a_fetch_group_removes_nothing() {
    let after = |s: EntryState, removed: bool| if removed { Missing } else { s };
    for live in [false, true] {
        for file in [Missing, Fresh, Expired] {
            for lock in [Missing, Fresh, Expired] {
                for partial in [Missing, Fresh, Expired] {
                    for work in [Missing, Fresh, Expired] {
                        let seen = FetchGroupEntries {
                            file,
                            partials: vec![partial],
                            work_dirs: vec![work],
                            lock,
                        };
                        let first = plan_fetch_group(&seen, live);
                        let lock_after = if first.remove_lock {
                            Missing
                        } else if lock == Missing {
                            Fresh
                        } else {
                            lock
                        };
                        let next = FetchGroupEntries {
                            file: after(file, first.remove_file),
                            partials: vec![after(partial, first.remove_partials[0])],
                            work_dirs: vec![after(work, first.remove_work_dirs[0])],
                            lock: lock_after,
                        };
                        let second = plan_fetch_group(&next, live);
                        assert!(!second.remove_file);
                        assert_eq!(second.remove_partials, vec![false]);
                        assert_eq!(second.remove_work_dirs, vec![false]);
                        assert!(!second.remove_lock);
                    }
                }
            }
        }
    }
}

#[test]
fn statistics_count_what_plans_remove() {
    let mut stats = CleanupStats::default();
    stats.record_package(&PackagePlan { remove_artifact: true, remove_build_dir: false, remove_lock: true });
    stats.record_package(&PackagePlan { remove_artifact: true, remove_build_dir: true, remove_lock: false });
    assert_eq!(stats.package_artifacts_removed, 2);
    assert_eq!(stats.package_build_dirs_removed, 1);
    assert_eq!(stats.package_lock_files_removed, 1);
    let seen = FetchGroupEntries {
        file: EntryState::Expired,
        partials: vec![EntryState::Expired, EntryState::Expired, EntryState::Fresh],
        work_dirs: vec![EntryState::Expired],
        lock: EntryState::Expired,
    };
    stats.record_fetch_group(&plan_fetch_group(&seen, false));
    assert_eq!(stats.fetch_files_removed, 1);
    assert_eq!(stats.fetch_partials_removed, 3);
    assert_eq!(stats.torrent_work_dirs_removed, 1);
    assert_eq!(stats.fetch_lock_files_removed, 0);
    stats.record_work_dir();
    stats.record_fetch_lock();
    stats.record_session_dir();
    stats.record_torrent_dir();
    assert_eq!(stats.fetch_partials_removed, 4);
    assert_eq!(stats.torrent_work_dirs_removed, 2);
    assert_eq!(stats.fetch_lock_files_removed, 1);
    assert_eq!(stats.torrent_session_dirs_removed, 1);
    assert_eq!(stats.torrent_dirs_removed, 1);
}

#[test]
fn counters_stop_at_the_top_of_their_range() {
    let mut stats = CleanupStats::default();
    stats.torrent_dirs_removed = usize::MAX;
    stats.record_torrent_dir();
    assert_eq!(stats.torrent_dirs_removed, usize::MAX);
}

fn class(name: &str, kind: EntryKind) -> String {
    match classify_fetch_entry(name, kind) {
        FetchEntryClass::WorkDir { base } => format!("work:{base}"),
        FetchEntryClass::Session => "session".to_string(),
        FetchEntryClass::StrayFetcherLock => "stray".to_string(),
        FetchEntryClass::Lock { base } => format!("lock:{base}"),
        FetchEntryClass::Partial { base } => format!("partial:{base}"),
        FetchEntryClass::File { base } => format!("file:{base}"),
        FetchEntryClass::Ignored => "ignored".to_string(),
    }
}

#[test]
fn entries_of_the_fetch_directory_are_told_apart() {
    assert_eq!(class("abc.torrent-work-0000000000000001", EntryKind::Dir), "work:abc");
    assert_eq!(class("a.torrent-work-b.torrent-work-c", EntryKind::Dir), "work:a");
    assert_eq!(class(".torrent-session-00ff", EntryKind::Dir), "session");
    assert_eq!(class("something", EntryKind::Dir), "ignored");
    assert_eq!(class("abc.lock", EntryKind::Dir), "ignored");
    assert_eq!(class("abc", EntryKind::Other), "ignored");
    assert_eq!(class(".torrent-fetcher.lock", EntryKind::File), "stray");
    assert_eq!(class("abc.lock", EntryKind::File), "lock:abc");
    assert_eq!(class("abc.tmp", EntryKind::File), "partial:abc");
    assert_eq!(class("abc", EntryKind::File), "file:abc");
    assert_eq!(class("abc.torrent-work-1", EntryKind::File), "file:abc.torrent-work-1");
    assert_eq!(class(".lock", EntryKind::File), "lock:");
}

#[test]
fn base_names_are_discovered_once_each() {
    let entries: Vec<String> =
        ["a-1.lock", "b-2.tar.zst", "a-1.tar.zst", "junk", "b-2.build", "c-3.build"]
            .iter()
            .map(|s| s.to_string())
            .collect();
    assert_eq!(discover_bases(&entries), vec!["a-1".to_string(), "b-2".to_string(), "c-3".to_string()]);
    assert_eq!(discover_bases(&Vec::new()), Vec::<String>::new());
}

fn entry(name: &str, kind: EntryKind) -> FetchEntry {
    FetchEntry { name: name.to_string(), kind }
}

#[test]
fn the_fetch_directory_is_sorted_out_by_digest() {
    let entries = vec![
        entry("aa.lock", EntryKind::File),
        entry("bb.tmp", EntryKind::File),
        entry("aa", EntryKind::File),
        entry(".torrent-session-01", EntryKind::Dir),
        entry("bb.torrent-work-0000000000000001", EntryKind::Dir),
        entry("aa.tmp", EntryKind::File),
        entry(".torrent-fetcher.lock", EntryKind::File),
        entry("bb.torrent-work-0000000000000002", EntryKind::Dir),
        entry("cc", EntryKind::Other),
        entry(".torrent-session-02", EntryKind::Dir),
        entry("dd", EntryKind::File),
    ];
    let survey = survey_fetch_entries(&entries);
    assert_eq!(survey.sessions, vec![3, 9]);
    assert_eq!(survey.stray_locks, vec![6]);
    let groups: Vec<(String, Option<usize>, Vec<usize>, Vec<usize>)> = survey
        .groups
        .into_iter()
        .map(|g| (g.base, g.file, g.partials, g.work_dirs))
        .collect();
    assert_eq!(
        groups,
        vec![
            ("aa".to_string(), Some(2), vec![5], vec![]),
            ("bb".to_string(), None, vec![1], vec![4, 7]),
            ("dd".to_string(), Some(10), vec![], vec![]),
        ]
    );
}

#[test]
fn an_empty_fetch_directory_has_no_groups() {
    let survey = survey_fetch_entries(&Vec::new());
    assert!(survey.groups.is_empty() && survey.sessions.is_empty() && survey.stray_locks.is_empty());
}

#[test]
fn what_is_locked_by_others_is_left_alone() {
    assert!(magpkg::cleanup::may_sweep(LockProbe::Acquired));
    assert!(magpkg::cleanup::may_sweep(LockProbe::Missing));
    assert!(!magpkg::cleanup::may_sweep(LockProbe::Contested));
}

#[test]
fn orphaned_work_directories_wait_for_live_sessions() {
    let states = vec![Expired, Fresh, Missing, Expired];
    assert_eq!(magpkg::cleanup::plan_orphans(&states, false), vec![true, false, false, true]);
    assert_eq!(magpkg::cleanup::plan_orphans(&states, true), vec![false; 4]);
}

#[test]
fn dead_sessions_are_swept() {
    let downloads = vec![Expired, Fresh];
    let plan = magpkg::cleanup::plan_session(LockProbe::Acquired, &downloads, Expired);
    assert_eq!(plan.remove_downloads, vec![true, false]);
    assert!(plan.remove_dir);
    let plan = magpkg::cleanup::plan_session(LockProbe::Missing, &downloads, Fresh);
    assert_eq!(plan.remove_downloads, vec![true, false]);
    assert!(!plan.remove_dir);
    let plan = magpkg::cleanup::plan_session(LockProbe::Contested, &downloads, Expired);
    assert_eq!(plan.remove_downloads, vec![false, false]);
    assert!(!plan.remove_dir);
    let mut stats = CleanupStats::default();
    stats.record_session(&magpkg::cleanup::plan_session(LockProbe::Acquired, &downloads, Expired));
    assert_eq!(stats.fetch_partials_removed, 1);
    assert_eq!(stats.torrent_work_dirs_removed, 1);
    assert_eq!(stats.torrent_session_dirs_removed, 1);
}

#[test]
fn a_sweep_covers_what_is_asked_for_in_order() {
    let store = magpkg::store::PackageStore::at("/s".to_string());
    let parts = |packages: bool, fetched: bool, torrents: bool| -> Vec<String> {
        store
            .cleanup(magpkg::cleanup::CleanupOptions { packages, fetched, torrents })
            .into_iter()
            .map(|sweep| match sweep {
                magpkg::cleanup::Sweep::Packages { dir } => format!("packages {dir}"),
                magpkg::cleanup::Sweep::Fetches { dir } => format!("fetches {dir}"),
                magpkg::cleanup::Sweep::Torrents { dir, seeder_lock } => {
                    format!("torrents {dir} unless {seeder_lock}")
                }
            })
            .collect()
    };
    assert_eq!(
        parts(true, true, true),
        vec!["packages /s/pkgs", "fetches /s/fetch", "torrents /s/torrent unless /s/seed/seeder.lock"]
    );
    assert_eq!(parts(false, true, false), vec!["fetches /s/fetch"]);
    assert_eq!(parts(false, false, false), Vec::<String>::new());
}
