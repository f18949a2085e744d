use magpkg::digest::sha256_hex;
use magpkg::package::{compute_hash, package_base_name, validate_package_name, FetchResource, Package};

fn fetch(filename: &str, sha256: &str, urls: &[&str]) -> FetchResource {
    FetchResource {
        filename: filename.to_string(),
        sha256: sha256.to_string(),
        urls: urls.iter().map(|u| u.to_string()).collect(),
    }
}

#[test]
fn sha256_hex_of_empty_input() {
    assert_eq!(
        sha256_hex(b""),
        "e3b0c44298fc1c149afbf4c8996fb92427ae41e4649b934ca495991b7852b855"
    );
}

#[test]
fn sha256_hex_of_abc() {
    assert_eq!(
        sha256_hex(b"abc"),
        "ba7816bf8f01cfea414140de5dae2223b00361a396177a9cb410ff61f20015ad"
    );
}

#[test]
fn hash_of_empty_package_is_digest_of_bare_separators() {
    let hash = compute_hash("", &Vec::new(), &Vec::new(), &Vec::new());
    assert_eq!(hash, sha256_hex(b"build:\0fetch\0\0run\0\0build\0"));
    assert_eq!(hash.len(), 64);
}

#[test]
fn hash_covers_script_fetches_and_dependencies_in_order() {
    let fetches = vec![fetch("x.tar.gz", "aa", &["https://example/x"]), fetch("y", "bb", &[])];
    let run = vec!["r1".to_string(), "r2".to_string()];
    let build = vec!["b1".to_string()];
    let hash = compute_hash("make", &fetches, &run, &build);
    assert_eq!(
        hash,
        sha256_hex(b"build:make\0fetch\0x.tar.gz\0aa\0y\0bb\0\0run\0r1r2\0build\0b1")
    );
}

#[test]
fn hash_is_the_same_on_every_evaluation() {
    let fetches = vec![fetch("a", "0123", &["u"])];
    let first = compute_hash("s", &fetches, &Vec::new(), &Vec::new());
    let second = compute_hash("s", &fetches, &Vec::new(), &Vec::new());
    assert_eq!(first, second);
}

#[test]
fn hash_changes_when_run_deps_are_swapped() {
    let a = sha256_hex(b"a");
    let b = sha256_hex(b"b");
    let one = compute_hash("s", &Vec::new(), &vec![a.clone(), b.clone()], &Vec::new());
    let two = compute_hash("s", &Vec::new(), &vec![b, a], &Vec::new());
    assert_ne!(one, two);
}

#[test]
fn hash_changes_when_build_deps_are_swapped() {
    let a = sha256_hex(b"a");
    let b = sha256_hex(b"b");
    let one = compute_hash("s", &Vec::new(), &Vec::new(), &vec![a.clone(), b.clone()]);
    let two = compute_hash("s", &Vec::new(), &Vec::new(), &vec![b, a]);
    assert_ne!(one, two);
}

#[test]
fn hash_tells_run_deps_from_build_deps() {
    let a = sha256_hex(b"a");
    let one = compute_hash("s", &Vec::new(), &vec![a.clone()], &Vec::new());
    let two = compute_hash("s", &Vec::new(), &Vec::new(), &vec![a]);
    assert_ne!(one, two);
}

#[test]
fn hash_ignores_urls() {
    let one = compute_hash("s", &vec![fetch("f", "d", &["https://a/x"])], &Vec::new(), &Vec::new());
    let two = compute_hash(
        "s",
        &vec![fetch("f", "d", &["magnet:?xt=urn:btih:00", "file:///tmp/x"])],
        &Vec::new(),
        &Vec::new(),
    );
    assert_eq!(one, two);
}

#[test]
fn hash_depends_on_fetch_digest() {
    let one = compute_hash("s", &vec![fetch("f", "d1", &[])], &Vec::new(), &Vec::new());
    let two = compute_hash("s", &vec![fetch("f", "d2", &[])], &Vec::new(), &Vec::new());
    assert_ne!(one, two);
}

fn package(name: Option<&str>, hash: &str) -> Package {
    Package {
        name: name.map(|n| n.to_string()),
        build: String::new(),
        hash: hash.to_string(),
        run_deps: Vec::new(),
        build_deps: Vec::new(),
        fetch: Vec::new(),
    }
}

#[test]
fn base_name_with_and_without_name() {
    assert_eq!(package_base_name(&package(Some("hello"), "abc")), "hello-abc");
    assert_eq!(package_base_name(&package(None, "abc")), "pkg-abc");
    assert_eq!(package_base_name(&package(Some(""), "abc")), "pkg-abc");
}

#[test]
fn same_content_different_name_shares_hash_suffix() {
    let hash = compute_hash("make", &Vec::new(), &Vec::new(), &Vec::new());
    let a = package_base_name(&package(Some("A"), &hash));
    let b = package_base_name(&package(Some("B"), &hash));
    assert_ne!(a, b);
    assert_eq!(a.strip_prefix("A-"), b.strip_prefix("B-"));
    assert_eq!(a.strip_prefix("A-"), Some(hash.as_str()));
}

#[test]
fn package_names_are_validated() {
    assert!(validate_package_name("hello", "$.name").is_ok());
    let complaint = |name: &str| validate_package_name(name, "$.name").unwrap_err().message();
    assert_eq!(complaint(""), "$.name: package name must not be empty when provided");
    assert_eq!(complaint("a/b"), "$.name: package name must not contain '/' characters");
    assert_eq!(complaint("a\nb"), "$.name: package name must not contain newline characters");
    assert_eq!(complaint("a\rb"), "$.name: package name must not contain newline characters");
    assert_eq!(complaint("/\n"), "$.name: package name must not contain '/' characters");
}
