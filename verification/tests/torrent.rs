use magpkg::torrent::{
    allocate_download_dir, listen_range, load_torrent_seed_info, parse_torrent, session_dir,
    single_file, TorrentSeeder,
};

fn single_file_torrent() -> Vec<u8> {
    let mut bytes = b"d4:infod6:lengthi3e4:name5:a.txt12:piece lengthi16384e6:pieces20:".to_vec();
    bytes.extend_from_slice(&[1u8; 20]);
    bytes.extend_from_slice(b"ee");
    bytes
}

fn listed_torrent() -> Vec<u8> {
    let mut bytes =
        b"d4:infod5:filesld6:lengthi3e4:pathl3:dir5:b.bineee4:name3:top12:piece lengthi16384e6:pieces20:"
            .to_vec();
    bytes.extend_from_slice(&[2u8; 20]);
    bytes.extend_from_slice(b"ee");
    bytes
}

fn two_file_torrent() -> Vec<u8> {
    let mut bytes =
        b"d4:infod5:filesld6:lengthi3e4:pathl1:aeed6:lengthi4e4:pathl1:beee4:name3:top12:piece lengthi16384e6:pieces40:"
            .to_vec();
    bytes.extend_from_slice(&[3u8; 40]);
    bytes.extend_from_slice(b"ee");
    bytes
}

#[test]
fn a_torrent_with_a_name_describes_one_file() {
    let bytes = single_file_torrent();
    let raw = parse_torrent(&bytes).unwrap();
    assert_eq!(raw.info_hash.len(), 20);
    assert_eq!(raw.name.as_deref(), Some(&b"a.txt"[..]));
    assert!(raw.files.is_none());
    let info = load_torrent_seed_info("/t/resource.torrent", bytes.clone()).unwrap();
    assert_eq!(info.info_hash, "80f34775ef88dc47cb6b6c06ac1ddc2e9e3d4954");
    assert_eq!(info.relative_path, "a.txt");
    assert_eq!(info.bytes, bytes);
}

#[test]
fn a_torrent_with_one_listed_file_gives_its_path() {
    let info = load_torrent_seed_info("/t/resource.torrent", listed_torrent()).unwrap();
    assert_eq!(info.info_hash, "b44ed7e214fe175df2b31833235874bea48c142d");
    assert_eq!(info.relative_path, "dir/b.bin");
}

#[test]
fn a_torrent_with_several_files_is_refused() {
    let error = load_torrent_seed_info("/t/resource.torrent", two_file_torrent()).unwrap_err();
    assert_eq!(error.message(), "torrent /t/resource.torrent referenced 2 files (expected 1)");
}

#[test]
fn bytes_that_are_no_torrent_are_refused() {
    let error = load_torrent_seed_info("/t/x", b"not bencoded".to_vec()).unwrap_err();
    assert!(
        error.message().starts_with("failed to parse torrent metadata from /t/x: "),
        "{}",
        error.message()
    );
}

#[test]
fn a_name_that_is_no_text_is_refused() {
    let mut bytes = b"d4:infod6:lengthi3e4:name2:".to_vec();
    bytes.extend_from_slice(&[0xff, 0xfe]);
    bytes.extend_from_slice(b"12:piece lengthi16384e6:pieces20:");
    bytes.extend_from_slice(&[1u8; 20]);
    bytes.extend_from_slice(b"ee");
    let error = load_torrent_seed_info("/t/x", bytes).unwrap_err();
    assert!(error.message().starts_with("invalid torrent name in /t/x: "), "{}", error.message());
}

#[test]
fn the_worker_answers_with_exactly_one_file() {
    assert_eq!(single_file("x.tgz", &vec!["a/b".to_string()]).unwrap(), "a/b");
    assert_eq!(
        single_file("x.tgz", &Vec::new()).unwrap_err().message(),
        "torrent for x.tgz contained 0 files (expected 1)"
    );
    assert_eq!(
        single_file("x.tgz", &vec!["a".to_string(), "b".to_string()]).unwrap_err().message(),
        "torrent for x.tgz contained 2 files (expected 1)"
    );
}

#[test]
fn work_and_session_directories_are_named_in_hexadecimal() {
    assert_eq!(
        allocate_download_dir("/s/fetch/.torrent-session-1/downloads", "abc", 26),
        "/s/fetch/.torrent-session-1/downloads/abc.torrent-work-000000000000001a"
    );
    assert_eq!(session_dir("/s/fetch", 0xfeed), "/s/fetch/.torrent-session-000000000000feed");
}

#[test]
fn the_seeder_needs_a_directory() {
    let seeder = TorrentSeeder::new("/s/torrent".to_string(), "/s/seed").unwrap();
    assert_eq!(seeder.torrent_root, "/s/torrent");
    assert_eq!(seeder.lock_path, "/s/seed/seeder.lock");
    assert_eq!(
        TorrentSeeder::new(String::new(), "/s/seed").unwrap_err().message(),
        "torrent seeder requires a directory to watch"
    );
}

#[test]
fn the_seeder_listens_on_one_port() {
    assert_eq!(listen_range(None).unwrap(), None);
    assert_eq!(listen_range(Some(6881)).unwrap(), Some((6881, 6882)));
    assert_eq!(
        listen_range(Some(u16::MAX)).unwrap_err().message(),
        "listen port must be lower than 65535"
    );
}

fn request(sha256: &str) -> magpkg::torrent::TorrentDownloadRequest {
    magpkg::torrent::TorrentDownloadRequest {
        url: "magnet:?xt=urn:btih:00".to_string(),
        sha256: sha256.to_string(),
        filename: "x.tgz".to_string(),
        dest: "/s/fetch/abc.tmp".to_string(),
    }
}

#[test]
fn the_worker_gives_each_request_a_directory_of_its_own() {
    use_worker();
}

fn use_worker() {
    let mut worker = magpkg::torrent::TorrentWorker::new("/s/fetch/.torrent-session-01");
    assert_eq!(worker.downloads_root, "/s/fetch/.torrent-session-01/downloads");
    let first = worker.handle(magpkg::torrent::WorkerCommand::Download { request: request("abc") });
    match first {
        magpkg::torrent::WorkerAction::Start { request, work_dir, options } => {
            assert_eq!(request.sha256, "abc");
            assert_eq!(
                work_dir,
                "/s/fetch/.torrent-session-01/downloads/abc.torrent-work-0000000000000001"
            );
            assert_eq!(options.output_folder, work_dir);
            assert!(options.overwrite);
        }
        other => panic!("{other:?}"),
    }
    let second = worker.handle(magpkg::torrent::WorkerCommand::Download { request: request("abc") });
    match second {
        magpkg::torrent::WorkerAction::Start { work_dir, .. } => assert!(work_dir.ends_with("-0000000000000002")),
        other => panic!("{other:?}"),
    }
    assert!(matches!(
        worker.handle(magpkg::torrent::WorkerCommand::Shutdown),
        magpkg::torrent::WorkerAction::Stop
    ));
    assert_eq!(worker.counter, 2);
    worker.counter = u64::MAX;
    worker.handle(magpkg::torrent::WorkerCommand::Download { request: request("abc") });
    assert_eq!(worker.counter, 0);
}
