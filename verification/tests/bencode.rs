use magpkg::bencode::{is_framed, MAX_NESTING};
use magpkg::torrent::{load_torrent_seed_info, parse_torrent};

const UNFRAMED: &str = "the data is not one complete bencoded value";

#[test]
fn complete_values_are_framed() {
    assert!(is_framed(b"0:"));
    assert!(is_framed(b"4:spam"));
    assert!(is_framed(b"007:abcdefg"));
    assert!(is_framed(b"i42e"));
    assert!(is_framed(b"i-7e"));
    assert!(is_framed(b"ie"));
    assert!(is_framed(b"le"));
    assert!(is_framed(b"de"));
    assert!(is_framed(b"l4:spami3ee"));
    assert!(is_framed(b"d3:bar4:spam3:fooi42ee"));
    assert!(is_framed(b"d1:ad1:bl1:ceee"));
    assert!(is_framed(b"4:spam and what follows"));
}

#[test]
fn data_that_breaks_off_is_not_framed() {
    assert!(!is_framed(b""));
    assert!(!is_framed(b"4:spa"));
    assert!(!is_framed(b"4"));
    assert!(!is_framed(b"i42"));
    assert!(!is_framed(b"l"));
    assert!(!is_framed(b"l4:spam"));
    assert!(!is_framed(b"d3:bar"));
    assert!(!is_framed(b"d3:bar4:spam"));
    assert!(!is_framed(b"d4:infod5:files"));
}

#[test]
fn data_of_another_shape_is_not_framed() {
    assert!(!is_framed(b"x"));
    assert!(!is_framed(b":abc"));
    assert!(!is_framed(b"4x:spam"));
    assert!(!is_framed(b"-1:a"));
    assert!(!is_framed(b"di1e3:fooe"));
    assert!(!is_framed(b"dlei1ee"));
}

#[test]
fn a_length_beyond_the_data_is_not_framed() {
    assert!(!is_framed(b"5:spam"));
    assert!(!is_framed(b"18446744073709551615:a"));
    assert!(!is_framed(b"18446744073709551616:a"));
    assert!(!is_framed(b"99999999999999999999999999999999999999:a"));
    assert!(!is_framed(b"d4:infod6:pieces18446744073709551615:abcee"));
}

fn nested(levels: usize) -> Vec<u8> {
    let mut bytes = vec![b'l'; levels];
    bytes.extend(vec![b'e'; levels]);
    bytes
}

#[test]
fn nesting_is_bounded() {
    assert_eq!(MAX_NESTING, 64);
    assert!(is_framed(&nested(1)));
    assert!(is_framed(&nested(64)));
    assert!(!is_framed(&nested(65)));
    assert!(!is_framed(&nested(100000)));
    assert!(!is_framed(&vec![b'l'; 1000000]));
    assert!(!is_framed(&vec![b'd'; 1000000]));
}

#[test]
fn data_that_breaks_off_is_kept_from_the_parser() {
    assert_eq!(parse_torrent(b"d4:infod5:files").unwrap_err(), UNFRAMED);
    assert_eq!(parse_torrent(b"").unwrap_err(), UNFRAMED);
    assert_eq!(
        parse_torrent(b"d4:infod6:pieces18446744073709551615:abcee").unwrap_err(),
        UNFRAMED
    );
    let error = load_torrent_seed_info("/t/x.torrent", b"d4:infod5:files".to_vec()).unwrap_err();
    assert_eq!(
        error.message(),
        format!("failed to parse torrent metadata from /t/x.torrent: {UNFRAMED}")
    );
}

#[test]
fn deeply_nested_data_is_kept_from_the_parser() {
    let mut bytes = b"d1:a".to_vec();
    bytes.extend(nested(100000));
    bytes.push(b'e');
    assert_eq!(parse_torrent(&bytes).unwrap_err(), UNFRAMED);
}

#[test]
fn framed_data_that_is_no_torrent_is_refused_by_the_parser() {
    for data in [
        &b"de"[..],
        &b"le"[..],
        &b"i1e"[..],
        &b"4:spam"[..],
        &b"d4:infoi1ee"[..],
        &b"d4:infodee"[..],
        &b"d4:infod5:filesi1eee"[..],
        &b"d4:infod5:files0:ee"[..],
        &b"d4:infod5:filesld4:pathi1eeeee"[..],
        &b"d13:announce-listl1:aee"[..],
        &b"d13:creation datei99999999999999999999ee"[..],
        &b"d4:infod12:piece lengthixeee"[..],
        &b"d4:infod7:privatei7eee"[..],
    ] {
        assert!(is_framed(data));
        let complaint = parse_torrent(data).unwrap_err();
        assert_ne!(complaint, UNFRAMED);
    }
    let mut bytes = b"d1:a".to_vec();
    bytes.extend(nested(63));
    bytes.push(b'e');
    assert!(is_framed(&bytes));
    assert_ne!(parse_torrent(&bytes).unwrap_err(), UNFRAMED);
}

fn sample_torrent() -> Vec<u8> {
    let mut bytes = b"d8:announce3:url13:announce-listll1:a1:bel1:cee7:comment2:hi13:creation datei17e4:infod5:filesld6:lengthi3e4:pathl3:dir5:b.bineed4:attr1:x6:lengthi4e4:pathl1:ce12:symlink pathl1:deee4:name3:top12:piece lengthi16384e6:pieces20:".to_vec();
    bytes.extend_from_slice(&[7u8; 20]);
    bytes.extend_from_slice(b"7:privatei1ee5:extrad1:kl1:vi5eeee");
    bytes
}

#[test]
fn the_sample_is_a_torrent() {
    let bytes = sample_torrent();
    assert!(is_framed(&bytes));
    let raw = parse_torrent(&bytes).unwrap();
    assert_eq!(raw.name.as_deref(), Some(&b"top"[..]));
    assert_eq!(raw.files.map(|f| f.len()), Some(2));
}

#[test]
fn every_beginning_of_a_torrent_is_answered() {
    let bytes = sample_torrent();
    for end in 0..bytes.len() {
        let part = &bytes[..end];
        assert!(!is_framed(part));
        assert_eq!(parse_torrent(part).unwrap_err(), UNFRAMED);
    }
}

#[test]
fn a_torrent_with_one_byte_changed_is_answered() {
    let bytes = sample_torrent();
    let marks = [b'd', b'l', b'i', b'e', b'0', b'1', b'9', b':', b'-', b'x', 0u8, 0xffu8];
    let mut framed = 0;
    for at in 0..bytes.len() {
        for mark in marks {
            let mut changed = bytes.clone();
            changed[at] = mark;
            if is_framed(&changed) {
                framed += 1;
            }
            let _ = parse_torrent(&changed);
        }
    }
    assert!(framed > 100);
}

#[test]
fn a_torrent_with_one_byte_more_or_less_is_answered() {
    let bytes = sample_torrent();
    let marks = [b'd', b'l', b'i', b'e', b'0', b'1', b':'];
    for at in 0..=bytes.len() {
        for mark in marks {
            let mut longer = bytes.clone();
            longer.insert(at, mark);
            let _ = parse_torrent(&longer);
        }
        if at < bytes.len() {
            let mut shorter = bytes.clone();
            shorter.remove(at);
            let _ = parse_torrent(&shorter);
        }
    }
}
