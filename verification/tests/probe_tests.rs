use netscan::probe::{
    extract_regex_pattern, load_probes_from_nmap, parse_port_spec, parse_probe_line, ProbeError,
};

#[test]
fn ssh_directive_is_filed_under_port_22() {
    let db = load_probes_from_nmap("match ssh |^SSH-2\\.0| p/22/").unwrap();
    assert_eq!(db.len(), 1);
    let list = db.get(&22).unwrap();
    assert_eq!(list.len(), 1);
    assert!(list[0].tag().starts_with("ssh"));
    assert_eq!(list[0].payload, b"ssh\r\n".to_vec());
    assert!(list[0].pattern.is_match("SSH-2.0-OpenSSH_9.1"));
    assert!(list[0].matches("SSH-2.0-OpenSSH_9.1"));
    assert!(!list[0].matches("HTTP/1.1 200 OK"));
}

#[test]
fn directives_for_one_port_keep_file_order() {
    let text = "match first |^SSH| p/22/\nmatch second |OpenSSH| p/22/\nmatch third |^SSH-2| p/22/\n";
    let db = load_probes_from_nmap(text).unwrap();
    let list = db.get(&22).unwrap();
    assert_eq!(list.len(), 3);
    assert_eq!(list[0].tag(), "first\r\n");
    assert_eq!(list[1].tag(), "second\r\n");
    assert_eq!(list[2].tag(), "third\r\n");
}

#[test]
fn sv_expands_to_fourteen_ports() {
    let ports = parse_port_spec("sV").unwrap();
    assert_eq!(
        ports,
        vec![21, 22, 25, 53, 80, 110, 143, 443, 993, 995, 3306, 3389, 5900, 8080]
    );
    assert_eq!(ports.len(), 14);
}

#[test]
fn sv_directive_is_filed_under_each_port() {
    let db = load_probes_from_nmap("match http |^HTTP/1\\.[01]| sV").unwrap();
    assert_eq!(db.len(), 14);
    for port in [21u16, 22, 25, 53, 80, 110, 143, 443, 993, 995, 3306, 3389, 5900, 8080] {
        let list = db.get(&port).unwrap();
        assert_eq!(list.len(), 1);
        assert_eq!(list[0].payload, b"http\r\n".to_vec());
        assert!(list[0].matches("HTTP/1.1 200 OK"));
        assert!(!list[0].matches("SSH-2.0"));
    }
    assert!(db.get(&8081).is_none());
}

#[test]
fn unreadable_port_spec_is_dropped() {
    let text = "match bogus |^x| x/9999\nmatch ssh |^SSH| p/22/\n";
    let db = load_probes_from_nmap(text).unwrap();
    assert_eq!(db.len(), 1);
    assert!(db.get(&9999).is_none());
    assert_eq!(db.get(&22).unwrap().len(), 1);
    assert!(parse_probe_line("match bogus |^x| x/9999").unwrap().is_none());
}

#[test]
fn port_spec_forms() {
    assert_eq!(parse_port_spec("p/22/").unwrap(), vec![22]);
    assert_eq!(parse_port_spec("p/0/").unwrap(), vec![0]);
    assert_eq!(parse_port_spec("p/65535/").unwrap(), vec![65535]);
    assert_eq!(parse_port_spec("p/00080/").unwrap(), vec![80]);
    assert_eq!(parse_port_spec("p/65536/").unwrap(), Vec::<u16>::new());
    assert_eq!(parse_port_spec("p/99999999999999999999999/").unwrap(), Vec::<u16>::new());
    assert_eq!(parse_port_spec("p/22").unwrap(), Vec::<u16>::new());
    assert_eq!(parse_port_spec("p//").unwrap(), Vec::<u16>::new());
    assert_eq!(parse_port_spec("p/").unwrap(), Vec::<u16>::new());
    assert_eq!(parse_port_spec("p/ssh/").unwrap(), Vec::<u16>::new());
    assert_eq!(parse_port_spec("p/2a/").unwrap(), Vec::<u16>::new());
    assert_eq!(parse_port_spec("p/+22/").unwrap(), Vec::<u16>::new());
    assert_eq!(parse_port_spec("p/-1/").unwrap(), Vec::<u16>::new());
    assert_eq!(parse_port_spec("x/9999").unwrap(), Vec::<u16>::new());
    assert_eq!(parse_port_spec("sv").unwrap(), Vec::<u16>::new());
    assert_eq!(parse_port_spec("sV/").unwrap(), Vec::<u16>::new());
    assert_eq!(parse_port_spec("").unwrap(), Vec::<u16>::new());
}

#[test]
fn pattern_is_what_stands_between_the_first_two_bars() {
    assert_eq!(extract_regex_pattern("|^SSH-2\\.0|").unwrap(), "^SSH-2\\.0");
    assert_eq!(extract_regex_pattern("m|abc|i").unwrap(), "abc");
    assert_eq!(extract_regex_pattern("|a|b|c|").unwrap(), "a");
    assert_eq!(extract_regex_pattern("||").unwrap(), "");
    assert_eq!(extract_regex_pattern("|\u{e9}t\u{e9}|").unwrap(), "\u{e9}t\u{e9}");
}

#[test]
fn pattern_field_without_two_bars_is_an_error() {
    assert_eq!(extract_regex_pattern("abc"), Err(ProbeError::MissingDelimiter));
    assert_eq!(extract_regex_pattern("|abc"), Err(ProbeError::MissingDelimiter));
    assert_eq!(extract_regex_pattern("abc|"), Err(ProbeError::MissingDelimiter));
    assert_eq!(extract_regex_pattern(""), Err(ProbeError::MissingDelimiter));
}

#[test]
fn malformed_pattern_field_fails_the_whole() {
    let missing = "match ssh |^SSH p/22/\nmatch ftp |^220| p/21/\n";
    assert_eq!(load_probes_from_nmap(missing).err(), Some(ProbeError::MissingDelimiter));
    let invalid = "match ftp |^220| p/21/\nmatch ssh |^SSH(| p/22/\n";
    assert_eq!(load_probes_from_nmap(invalid).err(), Some(ProbeError::InvalidPattern));
    assert_eq!(parse_probe_line("match ssh |^SSH(| p/22/").err(), Some(ProbeError::InvalidPattern));
    // The pattern field is read before the port specification.
    assert_eq!(parse_probe_line("match ssh |^SSH(| x/1").err(), Some(ProbeError::InvalidPattern));
    // The first malformed directive is the one reported.
    let both = "match a |(| p/1/\nmatch b none p/2/\n";
    assert_eq!(load_probes_from_nmap(both).err(), Some(ProbeError::InvalidPattern));
}

#[test]
fn short_directive_is_skipped() {
    assert!(parse_probe_line("match ssh |^SSH|").unwrap().is_none());
    assert!(parse_probe_line("match ssh").unwrap().is_none());
    assert!(parse_probe_line("match").unwrap().is_none());
    assert!(parse_probe_line("").unwrap().is_none());
    // With fewer than four fields the pattern field is not looked at.
    assert!(parse_probe_line("match ssh broken").unwrap().is_none());
    let db = load_probes_from_nmap("match ssh |^SSH|\nmatch ftp |^220| p/21/").unwrap();
    assert_eq!(db.len(), 1);
    assert!(db.contains_key(&21));
}

#[test]
fn other_lines_are_ignored() {
    let text = "# comment\n\nProbe TCP NULL q||\nsoftmatch ssh |(| p/22/\n matched |(| p/1/\n match ssh |(| p/2/\nmatchssh |(| p/3/\nmatch ftp |^220| p/21/\n";
    let db = load_probes_from_nmap(text).unwrap();
    assert_eq!(db.len(), 1);
    assert_eq!(db.get(&21).unwrap().len(), 1);
    assert!(load_probes_from_nmap("").unwrap().is_empty());
    assert!(load_probes_from_nmap("\n\n\n").unwrap().is_empty());
}

#[test]
fn fields_are_separated_by_any_whitespace() {
    let db = load_probes_from_nmap("match\tssh \t |^SSH|\u{a0}p/22/   trailing fields\r\n").unwrap();
    let list = db.get(&22).unwrap();
    assert_eq!(list.len(), 1);
    assert_eq!(list[0].payload, b"ssh\r\n".to_vec());
    let parsed = parse_probe_line("match  imap   |^\\*\\sOK|   p/143/  v/1/").unwrap().unwrap();
    assert_eq!(parsed.ports, vec![143]);
    assert_eq!(parsed.probe.payload, b"imap\r\n".to_vec());
    assert!(parsed.probe.matches("* OK ready"));
}

#[test]
fn carriage_returns_end_no_line() {
    let db = load_probes_from_nmap("match a |x| p/1/\r\nmatch b |y| p/2/\r\n").unwrap();
    assert_eq!(db.len(), 2);
    let one = load_probes_from_nmap("match a |x| p/1/\rmatch b |y| p/2/").unwrap();
    assert_eq!(one.len(), 1);
    assert!(one.contains_key(&1));
}

#[test]
fn tag_is_the_service_name_and_a_line_end() {
    let parsed = parse_probe_line("match caf\u{e9} |x| p/9/").unwrap().unwrap();
    assert_eq!(parsed.probe.tag(), "caf\u{e9}\r\n");
    assert_eq!(parsed.probe.payload, "caf\u{e9}\r\n".as_bytes().to_vec());
}

#[test]
fn cloned_signature_matches_the_same_texts() {
    let parsed = parse_probe_line("match ftp |^220\\s.*ready| p/21/").unwrap().unwrap();
    let copy = parsed.probe.clone();
    assert_eq!(copy.payload, parsed.probe.payload);
    assert!(copy.matches("220 ftp.example.com ready\r\n"));
    assert!(!copy.matches("421 busy"));
}

#[test]
fn pattern_with_a_space_is_cut_at_the_space() {
    // Fields end at whitespace, so the pattern field here is `|^220` alone.
    assert_eq!(
        parse_probe_line("match ftp |^220 .*ready| p/21/").err(),
        Some(ProbeError::MissingDelimiter)
    );
}

#[test]
fn errors_have_messages() {
    assert_eq!(ProbeError::MissingDelimiter.message(), "Invalid regex pattern in probe line");
    assert_eq!(ProbeError::InvalidPattern.message(), "Invalid regular expression in probe line");
}

#[test]
fn dropped_lines_leave_no_trace() {
    let with = "match a |^a| p/1/\n# comment\nmatch b |^b| x/9999\nmatch c |^c|\nmatch d |^d| p/1/\n";
    let without = "match a |^a| p/1/\nmatch d |^d| p/1/\n";
    let left = load_probes_from_nmap(with).unwrap();
    let right = load_probes_from_nmap(without).unwrap();
    assert_eq!(left.len(), right.len());
    let (l, r) = (left.get(&1).unwrap(), right.get(&1).unwrap());
    assert_eq!(l.len(), 2);
    assert_eq!(r.len(), 2);
    for i in 0..2 {
        assert_eq!(l[i].payload, r[i].payload);
        assert_eq!(l[i].pattern.as_str(), r[i].pattern.as_str());
    }
}

#[test]
fn signature_stands_behind_those_of_earlier_directives() {
    let text = "match a |^a| sV\nmatch b |^b| p/80/\nmatch c |^c| p/81/\nmatch d |^d| sV\n";
    let db = load_probes_from_nmap(text).unwrap();
    let tags = |port: u16| -> Vec<String> {
        db.get(&port).map(|list| list.iter().map(|p| p.tag()).collect()).unwrap_or_default()
    };
    assert_eq!(tags(80), vec!["a\r\n", "b\r\n", "d\r\n"]);
    assert_eq!(tags(22), vec!["a\r\n", "d\r\n"]);
    assert_eq!(tags(81), vec!["c\r\n"]);
    assert_eq!(tags(82), Vec::<String>::new());
    assert_eq!(db.len(), 15);
}

#[test]
fn directive_is_read_field_by_field() {
    let parsed = parse_probe_line("match ssh |^SSH-2\\.0| p/22/").unwrap().unwrap();
    assert_eq!(parsed.ports, vec![22]);
    assert_eq!(parsed.probe.payload, b"ssh\r\n".to_vec());
    assert_eq!(parsed.probe.pattern.as_str(), "^SSH-2\\.0");
    // The first field is not looked at: that is the caller's business.
    let other = parse_probe_line("softmatch ssh |^SSH| p/22/").unwrap().unwrap();
    assert_eq!(other.ports, vec![22]);
}
