use magpkg::error::MagError;
use magpkg::transport::{
    choose_transport, file_url_to_path, info_hash_from_url, is_remote_url, is_torrent_url,
    parse_magnet,
    parse_url, prioritize_urls, Transport,
};

const MAGNET: &str = "magnet:?xt=urn:btih:0123456789abcdef0123456789abcdef01234567&dn=x";

#[test]
fn urls_are_parsed_into_their_parts() {
    let url = parse_url("HTTPS://Example.org/a/b.TORRENT?q=1").unwrap();
    assert_eq!(url.scheme, "https");
    assert_eq!(url.host.as_deref(), Some("example.org"));
    assert_eq!(url.path, "/a/b.TORRENT");
    assert_eq!(url.text, "https://example.org/a/b.TORRENT?q=1");
    assert!(parse_url("relative/path").is_none());
    assert!(parse_url("/abs/path").is_none());
    let file = parse_url("file:///tmp/x.tar.gz").unwrap();
    assert_eq!(file.scheme, "file");
    assert_eq!(file.host, None);
    assert_eq!(file.path, "/tmp/x.tar.gz");
}

#[test]
fn torrent_like_urls() {
    assert!(is_torrent_url(MAGNET));
    assert!(is_torrent_url("  magnet:?xt=urn:btih:00"));
    assert!(is_torrent_url("https://example.org/x.torrent"));
    assert!(is_torrent_url("https://example.org/x.TORRENT?mirror=1"));
    assert!(is_torrent_url("file:///tmp/a.torrent"));
    assert!(!is_torrent_url("https://example.org/x.tgz"));
    assert!(!is_torrent_url("https://example.org/x.torrent.sig"));
    assert!(!is_torrent_url("/tmp/a.torrent"));
    assert!(!is_torrent_url(""));
}

#[test]
fn torrent_sources_are_tried_first() {
    let urls: Vec<String> = vec![
        "https://example/x.tgz".to_string(),
        MAGNET.to_string(),
        "file:///tmp/x.tgz".to_string(),
        "https://example/x.torrent".to_string(),
    ];
    assert_eq!(
        prioritize_urls(&urls),
        vec![
            MAGNET.to_string(),
            "https://example/x.torrent".to_string(),
            "https://example/x.tgz".to_string(),
            "file:///tmp/x.tgz".to_string(),
        ]
    );
    let two = vec!["magnet:?xt=urn:btih:deadbeef".to_string(), "https://example/x.tgz".to_string()];
    assert_eq!(prioritize_urls(&two), two);
    assert_eq!(prioritize_urls(&Vec::new()), Vec::<String>::new());
}

#[test]
fn transports_are_chosen_by_the_shape_of_the_url() {
    assert!(matches!(choose_transport(MAGNET), Ok(Transport::Torrent)));
    assert!(matches!(choose_transport("https://h/x.torrent"), Ok(Transport::Torrent)));
    assert!(matches!(choose_transport("http://h/x.tgz"), Ok(Transport::Http)));
    assert!(matches!(choose_transport("https://h/x.tgz"), Ok(Transport::Http)));
    assert!(matches!(choose_transport("file:///tmp/x.tgz"), Ok(Transport::FileUrl)));
    assert!(matches!(choose_transport("/tmp/x.tgz"), Ok(Transport::LocalPath)));
    assert!(matches!(choose_transport("x.tgz"), Ok(Transport::LocalPath)));
    match choose_transport("ftp://h/x.tgz") {
        Err(MagError::UnsupportedScheme { scheme }) => assert_eq!(scheme, "ftp"),
        other => panic!("{other:?}"),
    }
    assert_eq!(
        choose_transport("gopher://h/x").unwrap_err().message(),
        "unsupported fetch URL scheme: gopher"
    );
}

#[test]
fn file_urls_name_absolute_local_paths() {
    let url = parse_url("file:///tmp/x.tgz").unwrap();
    assert_eq!(file_url_to_path(&url, Some("/tmp/x.tgz".to_string())).unwrap(), "/tmp/x.tgz");
    assert_eq!(
        file_url_to_path(&url, None).unwrap_err().message(),
        "invalid file URL: file:///tmp/x.tgz"
    );
    assert_eq!(
        file_url_to_path(&url, Some("tmp/x".to_string())).unwrap_err().message(),
        "file URLs must reference absolute paths"
    );
    let local = parse_url("file://localhost/tmp/x.tgz").unwrap();
    assert_eq!(file_url_to_path(&local, Some("/tmp/x.tgz".to_string())).unwrap(), "/tmp/x.tgz");
    let remote = parse_url("file://server/tmp/x.tgz").unwrap();
    assert_eq!(
        file_url_to_path(&remote, Some("/tmp/x.tgz".to_string())).unwrap_err().message(),
        "unsupported file URL host: server"
    );
    let http = parse_url("http://h/x").unwrap();
    assert_eq!(
        file_url_to_path(&http, Some("/x".to_string())).unwrap_err().message(),
        "expected file URL, got http://h/x"
    );
}

#[test]
fn magnet_links_give_their_info_hash() {
    let ids = parse_magnet(MAGNET).unwrap();
    assert_eq!(ids.id20.as_ref().map(|v| v.len()), Some(20));
    assert_eq!(ids.id20.unwrap()[0..3], [0x01, 0x23, 0x45]);
    assert!(ids.id32.is_none());
    assert!(parse_magnet("magnet:?dn=x").is_err());
    assert_eq!(
        info_hash_from_url(MAGNET).unwrap(),
        Some("0123456789abcdef0123456789abcdef01234567".to_string())
    );
    assert_eq!(
        info_hash_from_url(&format!("  {MAGNET}\n")).unwrap(),
        Some("0123456789abcdef0123456789abcdef01234567".to_string())
    );
    let upper = "magnet:?xt=urn:btih:0123456789ABCDEF0123456789ABCDEF01234567";
    assert_eq!(
        info_hash_from_url(upper).unwrap(),
        Some("0123456789abcdef0123456789abcdef01234567".to_string())
    );
}

#[test]
fn version_two_magnet_links_give_their_info_hash() {
    let hash = "00112233445566778899aabbccddeeff00112233445566778899aabbccddeeff";
    let link = format!("magnet:?xt=urn:btmh:1220{hash}");
    assert_eq!(info_hash_from_url(&link).unwrap(), Some(hash.to_string()));
}

#[test]
fn other_sources_give_no_info_hash() {
    assert_eq!(info_hash_from_url("https://h/x.tgz").unwrap(), None);
    assert_eq!(info_hash_from_url("https://h/x.torrent").unwrap(), None);
    assert_eq!(info_hash_from_url("/tmp/x").unwrap(), None);
}

#[test]
fn broken_magnet_links_are_reported() {
    let message = info_hash_from_url("magnet:?dn=nothing").unwrap_err().message();
    assert!(message.starts_with("failed to parse magnet link magnet:?dn=nothing: "), "{message}");
}

#[test]
fn http_answers_outside_the_two_hundreds_are_failures() {
    use_check(200, true);
    use_check(204, true);
    use_check(299, true);
    use_check(199, false);
    use_check(300, false);
    use_check(404, false);
    assert_eq!(
        magpkg::transport::check_http_status("https://h/x", 404, "404 Not Found")
            .unwrap_err()
            .message(),
        "failed to download https://h/x: HTTP 404 Not Found"
    );
    assert_eq!(
        magpkg::transport::source_not_found("/tmp/x").message(),
        "fetch source not found: /tmp/x"
    );
}

fn use_check(code: u16, ok: bool) {
    assert_eq!(magpkg::transport::check_http_status("u", code, "s").is_ok(), ok, "{code}");
}

#[test]
fn remote_imports_begin_with_an_http_scheme() {
    assert!(is_remote_url("http://h/lib.libsonnet"));
    assert!(is_remote_url("https://h/lib.libsonnet"));
    assert!(is_remote_url("https://"));
    assert!(!is_remote_url("HTTPS://h/lib.libsonnet"));
    assert!(!is_remote_url(" https://h/x"));
    assert!(!is_remote_url("ftp://h/x"));
    assert!(!is_remote_url("/local/https://x"));
    assert!(!is_remote_url("http:/h"));
    assert!(!is_remote_url(""));
}
