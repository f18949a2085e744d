use magpkg::error::MagError;
use magpkg::fetch::{digest_matches, FetchAction, FetchCache, FetchEvent, FetchPhase};
use magpkg::package::FetchResource;
use magpkg::store::PackageStore;

const DIGEST: &str = "2cf24dba5fb0a30e26e83b2ac5b9e29e1b161e5c1fa7425e73043362938b9824";
const MAGNET: &str = "magnet:?xt=urn:btih:0123456789abcdef0123456789abcdef01234567";

fn start(urls: &[&str]) -> (FetchCache, FetchAction) {
    let fetch = FetchResource {
        filename: "x.tgz".to_string(),
        sha256: DIGEST.to_string(),
        urls: urls.iter().map(|u| u.to_string()).collect(),
    };
    FetchCache::start(&fetch, &PackageStore::at("/s".to_string()))
}

fn downloaded(digest: &str) -> FetchEvent {
    FetchEvent::Downloaded { outcome: Ok(digest.to_string()) }
}

fn failed(text: &str) -> FetchEvent {
    FetchEvent::Downloaded { outcome: Err(MagError::Network { message: text.to_string() }) }
}

fn expect_download(action: FetchAction, url: &str, discard: bool) {
    match action {
        FetchAction::Download { url: u, temp, discard_temp } => {
            assert_eq!(u, url);
            assert_eq!(temp, format!("/s/fetch/{DIGEST}.tmp"));
            assert_eq!(discard_temp, discard);
        }
        other => panic!("{other:?}"),
    }
}

#[test]
fn digests_are_compared_trimmed_and_in_lower_case() {
    assert!(digest_matches("00ff", "00ff"));
    assert!(digest_matches("00ff", " 00FF\n"));
    assert!(!digest_matches("00FF", "00ff"));
    assert!(!digest_matches("00ff", "00fe"));
}

#[test]
fn a_fetch_begins_with_the_cache() {
    let (state, action) = start(&["https://h/x.tgz"]);
    assert_eq!(state.phase, FetchPhase::CheckingCache);
    assert_eq!(state.dest, format!("/s/fetch/{DIGEST}"));
    assert_eq!(state.temp, format!("/s/fetch/{DIGEST}.tmp"));
    assert!(matches!(action, FetchAction::CheckCache { path } if path == state.dest));
}

#[test]
fn a_cached_file_with_the_right_digest_is_refreshed_and_used() {
    let (mut state, _) = start(&["https://h/x.tgz"]);
    let action = state.step(FetchEvent::CacheChecked { digest: Some(DIGEST.to_string()) });
    assert!(matches!(action, FetchAction::Refresh { ref path } if *path == state.dest));
    assert!(state.verified);
    assert!(!state.mirrored);
    let action = state.step(FetchEvent::Refreshed);
    match action {
        FetchAction::Done { result: Ok(path), discard_temp } => {
            assert_eq!(path, format!("/s/fetch/{DIGEST}"));
            assert!(!discard_temp);
        }
        other => panic!("{other:?}"),
    }
    assert!(state.mirrored);
    assert_eq!(state.phase, FetchPhase::Finished);
}

#[test]
fn a_cached_file_with_a_wrong_digest_is_removed() {
    let (mut state, _) = start(&["https://h/x.tgz"]);
    let action = state.step(FetchEvent::CacheChecked { digest: Some("beef".to_string()) });
    assert!(matches!(action, FetchAction::RemoveStale { ref path } if *path == state.dest));
    assert!(!state.verified);
    let action = state.step(FetchEvent::StaleRemoved);
    expect_download(action, "https://h/x.tgz", false);
}

#[test]
fn a_fetch_without_sources_fails() {
    let (mut state, _) = start(&[]);
    let action = state.step(FetchEvent::CacheChecked { digest: None });
    match action {
        FetchAction::Done { result: Err(MagError::NoUrls { filename }), .. } => {
            assert_eq!(filename, "x.tgz");
        }
        other => panic!("{other:?}"),
    }
    let (mut state, _) = start(&[]);
    state.step(FetchEvent::CacheChecked { digest: Some("beef".to_string()) });
    let action = state.step(FetchEvent::StaleRemoved);
    match action {
        FetchAction::Done { result: Err(e), .. } => {
            assert_eq!(e.message(), "no URLs provided for fetch x.tgz");
        }
        other => panic!("{other:?}"),
    }
}

#[test]
fn the_torrent_is_tried_first_and_its_success_ends_the_fetch() {
    let (mut state, _) = start(&[MAGNET, "https://example/x.tgz"]);
    let action = state.step(FetchEvent::CacheChecked { digest: None });
    expect_download(action, MAGNET, false);
    let action = state.step(downloaded(DIGEST));
    match action {
        FetchAction::Store { temp, dest } => {
            assert_eq!(temp, format!("/s/fetch/{DIGEST}.tmp"));
            assert_eq!(dest, format!("/s/fetch/{DIGEST}"));
        }
        other => panic!("{other:?}"),
    }
    let action = state.step(FetchEvent::Stored);
    assert!(matches!(action, FetchAction::Done { result: Ok(_), discard_temp: false }));
    assert!(state.verified && state.mirrored);
}

#[test]
fn sources_are_reordered_before_they_are_tried() {
    let (mut state, _) = start(&["https://example/x.tgz", MAGNET]);
    let action = state.step(FetchEvent::CacheChecked { digest: None });
    expect_download(action, MAGNET, false);
    let action = state.step(failed("no peers"));
    expect_download(action, "https://example/x.tgz", false);
}

#[test]
fn a_wrong_digest_moves_on_to_the_next_source() {
    let (mut state, _) = start(&["https://a/x.tgz", "https://b/x.tgz"]);
    state.step(FetchEvent::CacheChecked { digest: None });
    let action = state.step(downloaded("beef"));
    expect_download(action, "https://b/x.tgz", true);
    assert!(matches!(state.last_err, Some(MagError::HashMismatch { .. })));
    let action = state.step(downloaded("cafe"));
    match action {
        FetchAction::Done { result: Err(e), discard_temp } => {
            assert_eq!(e.message(), "SHA mismatch for x.tgz");
            assert!(discard_temp);
        }
        other => panic!("{other:?}"),
    }
    assert!(!state.verified);
    assert_eq!(state.phase, FetchPhase::Finished);
}

#[test]
fn the_last_error_is_the_result_when_every_source_fails() {
    let (mut state, _) = start(&["https://a/x.tgz", "https://b/x.tgz", "https://c/x.tgz"]);
    state.step(FetchEvent::CacheChecked { digest: None });
    let action = state.step(failed("first"));
    expect_download(action, "https://b/x.tgz", false);
    let action = state.step(downloaded("beef"));
    expect_download(action, "https://c/x.tgz", true);
    let action = state.step(failed("third"));
    match action {
        FetchAction::Done { result: Err(MagError::Network { message }), discard_temp } => {
            assert_eq!(message, "third");
            assert!(!discard_temp);
        }
        other => panic!("{other:?}"),
    }
}

#[test]
fn a_later_source_can_succeed() {
    let (mut state, _) = start(&["https://a/x.tgz", "https://b/x.tgz"]);
    state.step(FetchEvent::CacheChecked { digest: None });
    state.step(failed("down"));
    let action = state.step(downloaded(&DIGEST.to_uppercase().to_lowercase()));
    assert!(matches!(action, FetchAction::Store { .. }));
    let action = state.step(FetchEvent::Stored);
    assert!(matches!(action, FetchAction::Done { result: Ok(_), .. }));
}

#[test]
fn events_out_of_order_end_the_fetch() {
    let (mut state, _) = start(&["https://a/x.tgz"]);
    let action = state.step(FetchEvent::Stored);
    match action {
        FetchAction::Done { result: Err(e), .. } => {
            assert_eq!(e.message(), "fetch steps reported out of order");
        }
        other => panic!("{other:?}"),
    }
    assert!(!state.mirrored);
    let action = state.step(FetchEvent::CacheChecked { digest: None });
    assert!(matches!(action, FetchAction::Done { result: Err(_), .. }));
}
