use std::path::Path;

use magpkg::package::Package;
use magpkg::store::{
    join_path, package_base_from_entry, seed_lock_path, temp_path_for, trim_end_matches,
    PackageStore,
};

fn std_join(base: &str, child: &str) -> String {
    Path::new(base).join(child).to_str().unwrap().to_string()
}

#[test]
fn join_agrees_with_the_standard_library() {
    let cases = [
        ("/root", "pkgs"),
        ("/root/", "pkgs"),
        ("", "pkgs"),
        ("/root", "/abs"),
        ("/root", ""),
        ("rel", "a/b"),
        ("/", "x"),
        ("/root//", "x"),
    ];
    for (base, child) in cases {
        assert_eq!(join_path(base, child), std_join(base, child), "{base:?} {child:?}");
    }
}

#[test]
fn join_exact_values() {
    assert_eq!(join_path("/s", "fetch"), "/s/fetch");
    assert_eq!(join_path("/s/", "fetch"), "/s/fetch");
    assert_eq!(join_path("/s", "/other"), "/other");
    assert_eq!(join_path("", "fetch"), "fetch");
}

#[test]
fn store_directories_lie_below_the_root() {
    let store = PackageStore::at("/home/u/.magpkg".to_string());
    assert_eq!(store.base_root, "/home/u/.magpkg");
    assert_eq!(store.store_root, "/home/u/.magpkg/pkgs");
    assert_eq!(store.fetch_root, "/home/u/.magpkg/fetch");
    assert_eq!(store.torrent_root, "/home/u/.magpkg/torrent");
    assert_eq!(store.torrent_root(), "/home/u/.magpkg/torrent");
    assert_eq!(store.seed_root(), "/home/u/.magpkg/seed");
}

#[test]
fn store_root_comes_from_the_environment() {
    let custom = PackageStore::new(Some("/custom".to_string()), Some("/home/u".to_string())).unwrap();
    assert_eq!(custom.base_root, "/custom");
    let home = PackageStore::new(None, Some("/home/u".to_string())).unwrap();
    assert_eq!(home.base_root, "/home/u/.magpkg");
    let none = PackageStore::new(None, None).unwrap_err();
    assert_eq!(none.message(), "HOME environment variable is not set");
}

fn package(name: Option<&str>, hash: &str) -> Package {
    Package {
        name: name.map(|n| n.to_string()),
        build: String::new(),
        hash: hash.to_string(),
        run_deps: Vec::new(),
        build_deps: Vec::new(),
        fetch: Vec::new(),
    }
}

#[test]
fn package_files_are_named_by_base() {
    let store = PackageStore::at("/s".to_string());
    let hello = package(Some("hello"), "abc123");
    assert_eq!(store.package_artifact_path(&hello), "/s/pkgs/hello-abc123.tar.zst");
    assert_eq!(store.package_lock_path(&hello), "/s/pkgs/hello-abc123.lock");
    assert_eq!(store.package_build_root(&hello), "/s/pkgs/hello-abc123.build");
    let anonymous = package(None, "abc123");
    assert_eq!(store.package_artifact_path(&anonymous), "/s/pkgs/pkg-abc123.tar.zst");
}

#[test]
fn fetch_and_torrent_paths() {
    let store = PackageStore::at("/s".to_string());
    assert_eq!(store.fetch_path("deadbeef"), "/s/fetch/deadbeef");
    assert_eq!(store.fetch_lock_path("deadbeef"), "/s/fetch/deadbeef.lock");
    assert_eq!(store.torrent_dir("0011"), "/s/torrent/0011");
    assert_eq!(seed_lock_path(&store.seed_root()), "/s/seed/seeder.lock");
}

#[test]
fn temp_path_appends_to_the_last_component() {
    assert_eq!(temp_path_for("/s/fetch/deadbeef"), "/s/fetch/deadbeef.tmp");
    assert_eq!(temp_path_for("deadbeef"), "deadbeef.tmp");
    assert_eq!(temp_path_for("/s/fetch/deadbeef/"), "/s/fetch/deadbeef.tmp");
    assert_eq!(temp_path_for("/"), "/fetch.tmp");
    assert_eq!(temp_path_for(""), "fetch.tmp");
    assert_eq!(temp_path_for("/s/.."), "/s/../fetch.tmp");
}

#[test]
fn base_names_of_directory_entries() {
    assert_eq!(package_base_from_entry("hello-abc.tar.zst"), Some("hello-abc".to_string()));
    assert_eq!(package_base_from_entry("hello-abc.build"), Some("hello-abc".to_string()));
    assert_eq!(package_base_from_entry("hello-abc.lock"), Some("hello-abc".to_string()));
    assert_eq!(package_base_from_entry("hello-abc.lock.lock"), Some("hello-abc".to_string()));
    assert_eq!(package_base_from_entry("x.build.tar.zst"), Some("x.build".to_string()));
    assert_eq!(package_base_from_entry("hello-abc.tar.zst.tmp"), None);
    assert_eq!(package_base_from_entry("README"), None);
    assert_eq!(package_base_from_entry(".lock"), Some(String::new()));
}

#[test]
fn trim_end_matches_agrees_with_the_standard_library() {
    for (s, suffix) in [("a.lock.lock", ".lock"), ("abab", "ab"), ("abc", "x"), ("", "x"), ("aaa", "a")] {
        assert_eq!(trim_end_matches(s, suffix), s.trim_end_matches(suffix));
    }
}
