use netscan::fingerprint::{
    conclude, extend_banner, identify, match_banner, trigger_bytes, Action, Heard, Session,
};
use netscan::probe::{load_probes_from_nmap, Probe};
use regex::Regex;
use std::collections::HashMap;

fn signature(service: &str, pattern: &str) -> Probe {
    let mut payload = service.as_bytes().to_vec();
    payload.extend_from_slice(b"\r\n");
    Probe { payload, pattern: Regex::new(pattern).unwrap() }
}

fn ftp_database() -> HashMap<u16, Vec<Probe>> {
    let mut db = HashMap::new();
    db.insert(21, vec![signature("ftp", "^220 .*ready")]);
    db
}

#[test]
fn silent_peer_is_inconclusive() {
    let db = load_probes_from_nmap("match ssh |^SSH-2| p/22/").unwrap();
    let (session, first) = Session::begin();
    assert_eq!(first, Action::Peek);
    let (session, second) = session.advance(&db, 22, Heard::Banner(Vec::new()));
    assert_eq!(second, Action::SendTrigger);
    assert_eq!(session, Session::AwaitReply { banner: Vec::new() });
    let (session, third) = session.advance(&db, 22, Heard::Reply(Vec::new()));
    assert_eq!(third, Action::Report(None));
    assert_eq!(session, Session::Done { identification: None });
    assert_eq!(identify(&db, 22, b"", b""), None);
    assert_eq!(identify(&HashMap::new(), 22, b"", b""), None);
}

#[test]
fn recognised_banner_needs_no_trigger() {
    let db = ftp_database();
    let banner = b"220 ftp.example.com ready\r\n".to_vec();
    let (session, _) = Session::begin();
    let (session, action) = session.advance(&db, 21, Heard::Banner(banner.clone()));
    assert_eq!(action, Action::Report(Some("ftp\r\n".to_string())));
    assert_eq!(session, Session::Done { identification: Some("ftp\r\n".to_string()) });
    assert_eq!(match_banner(&db, 21, &banner), Some("ftp\r\n".to_string()));
    // What might have been read afterwards changes nothing.
    assert_eq!(identify(&db, 21, &banner, b"anything"), Some("ftp\r\n".to_string()));
}

#[test]
fn earlier_directive_wins() {
    let text = "match first |^SSH| p/22/\nmatch second |^SSH-2\\.0| p/22/\n";
    let db = load_probes_from_nmap(text).unwrap();
    let banner = b"SSH-2.0-OpenSSH_9.1\r\n";
    assert!(db.get(&22).unwrap()[1].matches("SSH-2.0-OpenSSH_9.1\r\n"));
    assert_eq!(match_banner(&db, 22, banner), Some("first\r\n".to_string()));
    // A banner that only the later one accepts gets the later one's tag.
    let swapped = "match first |^SSH-1| p/22/\nmatch second |^SSH-2\\.0| p/22/\n";
    let db = load_probes_from_nmap(swapped).unwrap();
    assert_eq!(match_banner(&db, 22, banner), Some("second\r\n".to_string()));
}

#[test]
fn signatures_of_other_ports_are_not_tried() {
    let db = ftp_database();
    let banner = b"220 ftp.example.com ready\r\n";
    assert_eq!(match_banner(&db, 2121, banner), None);
    assert_eq!(
        identify(&db, 2121, banner, banner),
        Some("220 ftp.example.com ready\r\n".to_string())
    );
}

#[test]
fn reply_is_read_from_the_start_of_the_stream() {
    let mut db = HashMap::new();
    db.insert(80, vec![signature("http", "^HTTP/1\\.[01] \\d\\d\\d")]);
    let (session, _) = Session::begin();
    let (session, action) = session.advance(&db, 80, Heard::Banner(Vec::new()));
    assert_eq!(action, Action::SendTrigger);
    let reply = b"HTTP/1.1 400 Bad Request\r\n".to_vec();
    let (session, action) = session.advance(&db, 80, Heard::Reply(reply));
    assert_eq!(action, Action::Report(Some("http\r\n".to_string())));
    assert_eq!(session, Session::Done { identification: Some("http\r\n".to_string()) });
}

#[test]
fn banner_grows_by_what_lies_beyond_it() {
    assert_eq!(extend_banner(b"abc".to_vec(), b"abcdef"), b"abcdef".to_vec());
    assert_eq!(extend_banner(b"abc".to_vec(), b"xyzdef"), b"abcdef".to_vec());
    assert_eq!(extend_banner(b"abc".to_vec(), b"abc"), b"abc".to_vec());
    assert_eq!(extend_banner(b"abc".to_vec(), b"ab"), b"abc".to_vec());
    assert_eq!(extend_banner(b"abc".to_vec(), b""), b"abc".to_vec());
    assert_eq!(extend_banner(Vec::new(), b"hello"), b"hello".to_vec());
    assert_eq!(extend_banner(Vec::new(), b""), Vec::<u8>::new());
}

#[test]
fn unrecognised_banner_is_returned_as_text() {
    let db = ftp_database();
    let (session, _) = Session::begin();
    let (session, action) = session.advance(&db, 21, Heard::Banner(b"421 ".to_vec()));
    assert_eq!(action, Action::SendTrigger);
    let (_, action) = session.advance(&db, 21, Heard::Reply(b"421 busy\r\n".to_vec()));
    assert_eq!(action, Action::Report(Some("421 busy\r\n".to_string())));
    assert_eq!(conclude(&db, 21, b"421 busy"), Some("421 busy".to_string()));
    assert_eq!(conclude(&db, 21, b""), None);
    // Nothing came after the trigger: the banner alone is the answer.
    assert_eq!(identify(&db, 21, b"hello", b""), Some("hello".to_string()));
}

#[test]
fn extended_banner_is_matched_again() {
    let db = ftp_database();
    assert_eq!(match_banner(&db, 21, b"220 ftp"), None);
    assert_eq!(
        identify(&db, 21, b"220 ftp", b"220 ftp.example.com ready\r\n"),
        Some("ftp\r\n".to_string())
    );
}

#[test]
fn bytes_that_are_no_utf8_are_replaced() {
    let mut db = HashMap::new();
    db.insert(9, vec![signature("odd", "^\u{FFFD}SSH")]);
    assert_eq!(match_banner(&db, 9, &[0xff, b'S', b'S', b'H']), Some("odd\r\n".to_string()));
    assert_eq!(conclude(&db, 9, &[b'a', 0xc3, b'b']), Some("a\u{FFFD}b".to_string()));
    assert_eq!(conclude(&db, 9, &[0xc3, 0xa9]), Some("\u{e9}".to_string()));
    let raw = Probe { payload: vec![0x80, b'x'], pattern: Regex::new("x").unwrap() };
    assert_eq!(raw.tag(), "\u{FFFD}x");
}

#[test]
fn empty_banner_can_be_recognised() {
    let mut db = HashMap::new();
    db.insert(7, vec![signature("any", "^$")]);
    let (session, _) = Session::begin();
    let (_, action) = session.advance(&db, 7, Heard::Banner(Vec::new()));
    assert_eq!(action, Action::Report(Some("any\r\n".to_string())));
}

#[test]
fn unexpected_input_is_ignored() {
    let db = ftp_database();
    let (session, _) = Session::begin();
    let (session, action) = session.advance(&db, 21, Heard::Reply(b"220 x ready".to_vec()));
    assert_eq!(action, Action::Ignore);
    assert_eq!(session, Session::AwaitBanner);
    let (session, _) = session.advance(&db, 21, Heard::Banner(b"hi".to_vec()));
    let (session, action) = session.advance(&db, 21, Heard::Banner(b"220 x ready".to_vec()));
    assert_eq!(action, Action::Ignore);
    assert_eq!(session, Session::AwaitReply { banner: b"hi".to_vec() });
    let (session, _) = session.advance(&db, 21, Heard::Reply(Vec::new()));
    assert_eq!(session, Session::Done { identification: Some("hi".to_string()) });
    let (session, action) = session.advance(&db, 21, Heard::Reply(b"more".to_vec()));
    assert_eq!(action, Action::Ignore);
    assert_eq!(session, Session::Done { identification: Some("hi".to_string()) });
}

#[test]
fn trigger_is_a_line_end() {
    assert_eq!(trigger_bytes(), b"\r\n".to_vec());
}
