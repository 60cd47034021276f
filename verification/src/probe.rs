//! The signature database: `match` directives of a probe-definition text,
//! parsed into signatures and indexed by port.

use crate::pattern::{compile, compiled_language, duplicate, regex_language};
use crate::text::{
    decimal_u16, decode_lossy, find_char, index_of, is_space, is_whitespace, line_spans, lines,
    lossy_text, parse_u16, spans_of, string_of, to_chars, word_spans, words, Span,
};
use regex::Regex;
use std::collections::HashMap;
use vstd::prelude::*;
use vstd::string::StrSliceExecFns;
use vstd::string::StringExecFns;
use vstd::utf8::{decode_utf8, encode_utf8, valid_utf8};

verus! {

/// Why a directive could not be read.
#[derive(Clone, Copy, Debug, PartialEq, Eq, Structural)]
pub enum ProbeError {
    /// The pattern field does not hold two `|`.
    MissingDelimiter,
    /// The text between the delimiters is not a pattern that compiles.
    InvalidPattern,
}

impl ProbeError {
    /// What went wrong, in words.
    pub fn message(&self) -> (text: String)
        ensures
            text@ == match self {
                ProbeError::MissingDelimiter => "Invalid regex pattern in probe line"@,
                ProbeError::InvalidPattern => "Invalid regular expression in probe line"@,
            },
    {
        match self {
            ProbeError::MissingDelimiter => "Invalid regex pattern in probe line".to_owned(),
            ProbeError::InvalidPattern => "Invalid regular expression in probe line".to_owned(),
        }
    }
}

/// A signature: the tag of a service and the pattern that recognises it.
pub struct Probe {
    /// The service name followed by CR LF, in UTF-8.
    pub payload: Vec<u8>,
    /// The compiled pattern.
    pub pattern: Regex,
}

/// What a signature is to the contracts: its tag and the texts it accepts.
pub struct ProbeView {
    pub payload: Seq<u8>,
    pub accepts: Set<Seq<char>>,
}

impl View for Probe {
    type V = ProbeView;

    open spec fn view(&self) -> ProbeView {
        ProbeView { payload: self.payload@, accepts: regex_language(self.pattern) }
    }
}

impl Clone for Probe {
    fn clone(&self) -> (r: Self)
        ensures
            r@ == self@,
    {
        Probe { payload: self.payload.clone(), pattern: duplicate(&self.pattern) }
    }
}

impl Probe {
    /// The tag as text: the payload, with whatever is not UTF-8 replaced.
    pub fn tag(&self) -> (r: String)
        ensures
            r@ == lossy_text(self.payload@),
            valid_utf8(self.payload@) ==> r@ == decode_utf8(self.payload@),
    {
        decode_lossy(self.payload.as_slice())
    }

    /// Whether the pattern finds a match in `text`.
    pub fn matches(&self, text: &str) -> (m: bool)
        ensures
            m == self@.accepts.contains(text@),
    {
        crate::pattern::is_match(&self.pattern, text)
    }
}

/// A directive that was read: its signature and the ports it is filed under.
pub struct ParsedProbe {
    pub probe: Probe,
    pub ports: Vec<u16>,
}

pub struct ParsedProbeView {
    pub probe: ProbeView,
    pub ports: Seq<u16>,
}

impl View for ParsedProbe {
    type V = ParsedProbeView;

    open spec fn view(&self) -> ParsedProbeView {
        ParsedProbeView { probe: self.probe@, ports: self.ports@ }
    }
}

/// The text strictly between the first two `|` of `s`; `None` where `s` holds
/// fewer than two.
pub open spec fn delimited(s: Seq<char>) -> Option<Seq<char>> {
    let open = find_char(s, 0, '|');
    let close = find_char(s, open + 1, '|');
    if open < s.len() && close < s.len() {
        Some(s.subrange(open + 1, close))
    } else {
        None
    }
}

/// The ports that the port specification `sV` stands for.
pub open spec fn sv_ports() -> Seq<u16> {
    seq![21u16, 22, 25, 53, 80, 110, 143, 443, 993, 995, 3306, 3389, 5900, 8080]
}

/// The ports that a port specification names: the one port of `p/<number>/`,
/// the fixed list of `sV`, and none for anything else.
pub open spec fn port_spec(s: Seq<char>) -> Seq<u16> {
    if s == seq!['s', 'V'] {
        sv_ports()
    } else if s.len() >= 3 && s[0] == 'p' && s[1] == '/' && s.last() == '/' {
        match decimal_u16(s.subrange(2, s.len() - 1)) {
            Some(port) => seq![port],
            None => Seq::empty(),
        }
    } else {
        Seq::empty()
    }
}

/// The tag of a service: its name followed by CR LF, in UTF-8.
pub open spec fn tag_bytes(service: Seq<char>) -> Seq<u8> {
    encode_utf8(service + seq!['\r', '\n'])
}

/// What a directive yields: an error where its pattern field is malformed,
/// nothing where it has fewer than four fields or names no port, else the
/// signature and its ports.
pub open spec fn parsed_line(line: Seq<char>) -> Result<Option<ParsedProbeView>, ProbeError> {
    let fields = words(line);
    if fields.len() < 4 {
        Ok(None)
    } else {
        match delimited(fields[2]) {
            None => Err(ProbeError::MissingDelimiter),
            Some(pattern) => match compiled_language(pattern) {
                None => Err(ProbeError::InvalidPattern),
                Some(accepts) => {
                    let ports = port_spec(fields[3]);
                    if ports.len() == 0 {
                        Ok(None)
                    } else {
                        Ok(
                            Some(
                                ParsedProbeView {
                                    probe: ProbeView { payload: tag_bytes(fields[1]), accepts },
                                    ports,
                                },
                            ),
                        )
                    }
                },
            },
        }
    }
}

/// Whether a line is a directive: it begins with `match` and whitespace.
pub open spec fn is_directive(line: Seq<char>) -> bool {
    line.len() > 5 && line.subrange(0, 5) == seq!['m', 'a', 't', 'c', 'h'] && is_space(line[5])
}

/// What a line of the file yields; a line that is no directive yields nothing.
pub open spec fn line_entry(line: Seq<char>) -> Result<Option<ParsedProbeView>, ProbeError> {
    if is_directive(line) {
        parsed_line(line)
    } else {
        Ok(None)
    }
}

/// What the lines of a file yield, in file order; the first malformed
/// directive is the error of the whole.
pub open spec fn entries(file: Seq<Seq<char>>) -> Result<Seq<ParsedProbeView>, ProbeError>
    decreases file.len(),
{
    if file.len() == 0 {
        Ok(Seq::empty())
    } else {
        match entries(file.drop_last()) {
            Err(e) => Err(e),
            Ok(before) => match line_entry(file.last()) {
                Err(e) => Err(e),
                Ok(None) => Ok(before),
                Ok(Some(entry)) => Ok(before.push(entry)),
            },
        }
    }
}

/// The signatures filed under `port`, in the order of their directives.
pub open spec fn signatures_for(found: Seq<ParsedProbeView>, port: u16) -> Seq<ProbeView>
    decreases found.len(),
{
    if found.len() == 0 {
        Seq::empty()
    } else if found.last().ports.contains(port) {
        signatures_for(found.drop_last(), port).push(found.last().probe)
    } else {
        signatures_for(found.drop_last(), port)
    }
}

/// The signatures of a list, as the contracts see them.
pub open spec fn probe_views(list: Seq<Probe>) -> Seq<ProbeView> {
    list.map_values(|p: Probe| p@)
}

/// What a database holds for `port`: nothing where the port is not in it.
pub open spec fn filed_under(db: Map<u16, Vec<Probe>>, port: u16) -> Seq<ProbeView> {
    if db.contains_key(port) {
        probe_views(db[port]@)
    } else {
        Seq::empty()
    }
}

/// Whether a database holds just the signatures of `found`: each port that a
/// directive names is in it, with its signatures in file order, and no other.
pub open spec fn holds(db: Map<u16, Vec<Probe>>, found: Seq<ParsedProbeView>) -> bool {
    forall|port: u16|
        {
            &&& #[trigger] filed_under(db, port) == signatures_for(found, port)
            &&& db.contains_key(port) <==> signatures_for(found, port).len() > 0
        }
}

/// What a probe-definition text yields.
pub open spec fn parsed_file(text: Seq<char>) -> Result<Seq<ParsedProbeView>, ProbeError> {
    entries(lines(text))
}

/// The pattern of a pattern field: what stands between its first two `|`.
pub fn extract_regex_pattern(s: &str) -> (r: Result<String, ProbeError>)
    ensures
        match r {
            Ok(pattern) => delimited(s@) == Some(pattern@),
            Err(e) => delimited(s@) is None && e == ProbeError::MissingDelimiter,
        },
{
    let chars = to_chars(s);
    match delimited_span(chars.as_slice()) {
        Some(span) => Ok(string_of(slice_of(chars.as_slice(), span))),
        None => Err(ProbeError::MissingDelimiter),
    }
}

/// The ports that a port specification names. Never an error: a
/// specification that is not understood names no port.
pub fn parse_port_spec(s: &str) -> (r: Result<Vec<u16>, ProbeError>)
    ensures
        r matches Ok(ports) && ports@ == port_spec(s@),
        port_spec(s@).no_duplicates(),
        s@ == seq!['s', 'V'] ==> port_spec(s@).len() == 14,
{
    let chars = to_chars(s);
    Ok(port_list(chars.as_slice()))
}

/// Reads one directive.
pub fn parse_probe_line(line: &str) -> (r: Result<Option<ParsedProbe>, ProbeError>)
    ensures
        match r {
            Ok(Some(parsed)) => parsed_line(line@) == Ok::<_, ProbeError>(Some(parsed@)),
            Ok(None) => parsed_line(line@) == Ok::<Option<ParsedProbeView>, ProbeError>(None),
            Err(e) => parsed_line(line@) == Err::<Option<ParsedProbeView>, _>(e),
        },
{
    let chars = to_chars(line);
    parse_directive(chars.as_slice())
}

/// The characters of `s` that `span` covers.
fn slice_of(s: &[char], span: Span) -> (r: &[char])
    requires
        span.within(s@.len()),
    ensures
        r@ == span.of(s@),
{
    &s[span.start..span.end]
}

/// Where the pattern of a pattern field stands.
fn delimited_span(s: &[char]) -> (r: Option<Span>)
    ensures
        match r {
            Some(span) => span.within(s@.len()) && delimited(s@) == Some(span.of(s@)),
            None => delimited(s@) is None,
        },
{
    let open = index_of(s, 0, '|');
    if open >= s.len() {
        return None;
    }
    let close = index_of(s, open + 1, '|');
    if close >= s.len() {
        return None;
    }
    Some(Span { start: open + 1, end: close })
}

/// The fixed list behind `sV`.
fn service_ports() -> (ports: Vec<u16>)
    ensures
        ports@ == sv_ports(),
        sv_ports().no_duplicates(),
        sv_ports().len() == 14,
{
    let ports: Vec<u16> = vec![21, 22, 25, 53, 80, 110, 143, 443, 993, 995, 3306, 3389, 5900, 8080];
    assert(ports@ =~= sv_ports());
    ports
}

/// The ports of a port specification.
fn port_list(s: &[char]) -> (ports: Vec<u16>)
    ensures
        ports@ == port_spec(s@),
        ports@.no_duplicates(),
        s@ == seq!['s', 'V'] ==> ports@.len() == 14,
{
    let n = s.len();
    if n == 2 && s[0] == 's' && s[1] == 'V' {
        assert(s@ =~= seq!['s', 'V']);
        return service_ports();
    }
    assert(s@ != seq!['s', 'V']) by {
        if s@ == seq!['s', 'V'] {
            assert(seq!['s', 'V'].len() == 2);
            assert(seq!['s', 'V'][0] == 's');
            assert(seq!['s', 'V'][1] == 'V');
        }
    }
    let mut ports: Vec<u16> = Vec::new();
    if n >= 3 && s[0] == 'p' && s[1] == '/' && s[n - 1] == '/' {
        let digits = slice_of(s, Span { start: 2, end: n - 1 });
        match parse_u16(digits) {
            Some(port) => {
                ports.push(port);
                assert(ports@ =~= seq![port]);
            },
            None => {},
        }
    }
    ports
}

/// The tag of a service.
fn tag_of(service: &[char]) -> (payload: Vec<u8>)
    ensures
        payload@ == tag_bytes(service@),
{
    let mut name = string_of(service);
    name.append("\r\n");
    proof {
        reveal_strlit("\r\n");
        assert("\r\n"@ =~= seq!['\r', '\n']);
    }
    name.as_str().as_bytes_vec()
}

/// Reads one directive from its characters.
fn parse_directive(line: &[char]) -> (r: Result<Option<ParsedProbe>, ProbeError>)
    ensures
        match r {
            Ok(Some(parsed)) => parsed_line(line@) == Ok::<_, ProbeError>(Some(parsed@))
                && parsed@.ports.no_duplicates(),
            Ok(None) => parsed_line(line@) == Ok::<Option<ParsedProbeView>, ProbeError>(None),
            Err(e) => parsed_line(line@) == Err::<Option<ParsedProbeView>, _>(e),
        },
{
    let fields = word_spans(line);
    if fields.len() < 4 {
        return Ok(None);
    }
    let ghost all = words(line@);
    assert(all[1] == fields@[1].of(line@));
    assert(all[2] == fields@[2].of(line@));
    assert(all[3] == fields@[3].of(line@));
    let service = slice_of(line, fields[1]);
    let field = slice_of(line, fields[2]);
    let port_field = slice_of(line, fields[3]);
    let source = match delimited_span(field) {
        Some(span) => string_of(slice_of(field, span)),
        None => { return Err(ProbeError::MissingDelimiter); },
    };
    let pattern = match compile(source.as_str()) {
        Ok(pattern) => pattern,
        Err(_) => { return Err(ProbeError::InvalidPattern); },
    };
    let payload = tag_of(service);
    let ports = port_list(port_field);
    if ports.len() == 0 {
        return Ok(None);
    }
    Ok(Some(ParsedProbe { probe: Probe { payload, pattern }, ports }))
}

/// Whether a line of the file is a directive.
fn directive(line: &[char]) -> (b: bool)
    ensures
        b == is_directive(line@),
{
    if line.len() > 5 && line[0] == 'm' && line[1] == 'a' && line[2] == 't' && line[3] == 'c'
        && line[4] == 'h' {
        assert(line@.subrange(0, 5) =~= seq!['m', 'a', 't', 'c', 'h']);
        is_whitespace(line[5])
    } else {
        assert(!is_directive(line@)) by {
            if line@.len() > 5 && line@.subrange(0, 5) == seq!['m', 'a', 't', 'c', 'h'] {
                let head = line@.subrange(0, 5);
                assert(head[0] == 'm' && head[1] == 'a' && head[2] == 't' && head[3] == 'c'
                    && head[4] == 'h');
            }
        }
        false
    }
}

/// Once a directive is malformed, the lines after it change nothing.
pub proof fn lemma_error_aborts(file: Seq<Seq<char>>, k: int)
    requires
        0 <= k <= file.len(),
        entries(file.take(k)) is Err,
    ensures
        entries(file) == entries(file.take(k)),
    decreases file.len() - k,
{
    if k < file.len() {
        assert(file.take(k + 1).drop_last() == file.take(k));
        lemma_error_aborts(file, k + 1);
    } else {
        assert(file.take(k) == file);
    }
}

/// What filing a signature does to a database: the signature goes behind what
/// is filed under each of its ports, and nothing else changes.
pub open spec fn filed(
    before: Map<u16, Vec<Probe>>,
    after: Map<u16, Vec<Probe>>,
    entry: ParsedProbeView,
) -> bool {
    forall|port: u16|
        {
            &&& #[trigger] filed_under(after, port) == if entry.ports.contains(port) {
                filed_under(before, port).push(entry.probe)
            } else {
                filed_under(before, port)
            }
            &&& after.contains_key(port) <==> before.contains_key(port) || entry.ports.contains(
                port,
            )
        }
}

/// A database that holds the signatures of some directives holds, once the
/// signature of one more is filed, those of all of them.
proof fn lemma_filed(
    before: Map<u16, Vec<Probe>>,
    after: Map<u16, Vec<Probe>>,
    found: Seq<ParsedProbeView>,
    entry: ParsedProbeView,
)
    requires
        holds(before, found),
        filed(before, after, entry),
    ensures
        holds(after, found.push(entry)),
{
    let longer = found.push(entry);
    assert forall|port: u16|
        {
            &&& #[trigger] filed_under(after, port) == signatures_for(longer, port)
            &&& after.contains_key(port) <==> signatures_for(longer, port).len() > 0
        } by {
        lemma_one_more(found, entry, port);
        assert(filed_under(before, port) == signatures_for(found, port));
        assert(before.contains_key(port) <==> signatures_for(found, port).len() > 0);
        assert(filed_under(after, port) == if entry.ports.contains(port) {
            filed_under(before, port).push(entry.probe)
        } else {
            filed_under(before, port)
        });
        assert(after.contains_key(port) <==> before.contains_key(port) || entry.ports.contains(
            port,
        ));
    }
}

/// One more directive adds its signature behind those filed under each of
/// its ports, and nothing under any other port.
pub proof fn lemma_one_more(found: Seq<ParsedProbeView>, entry: ParsedProbeView, port: u16)
    ensures
        signatures_for(found.push(entry), port) == if entry.ports.contains(port) {
            signatures_for(found, port).push(entry.probe)
        } else {
            signatures_for(found, port)
        },
{
    let longer = found.push(entry);
    assert(longer.drop_last() == found);
    assert(longer.last() == entry);
}

/// Files a signature under each of its ports, behind what is filed there.
fn file_signature(db: &mut HashMap<u16, Vec<Probe>>, parsed: &ParsedProbe)
    requires
        parsed@.ports.no_duplicates(),
    ensures
        filed(old(db)@, final(db)@, parsed@),
{
    broadcast use vstd::std_specs::hash::group_hash_axioms;

    let mut j: usize = 0;
    while j < parsed.ports.len()
        invariant
            j <= parsed.ports@.len(),
            parsed@.ports.no_duplicates(),
            forall|port: u16|
                {
                    &&& #[trigger] filed_under(db@, port) == if parsed@.ports.take(
                        j as int,
                    ).contains(port) {
                        filed_under(old(db)@, port).push(parsed@.probe)
                    } else {
                        filed_under(old(db)@, port)
                    }
                    &&& db@.contains_key(port) <==> old(db)@.contains_key(port)
                        || parsed@.ports.take(j as int).contains(port)
                },
        decreases parsed.ports@.len() - j,
    {
        let port = parsed.ports[j];
        let ghost before = db@;
        let ghost done = parsed@.ports.take(j as int);
        let ghost next = parsed@.ports.take(j + 1);
        let mut list = match db.remove(&port) {
            Some(list) => list,
            None => Vec::new(),
        };
        let ghost was = list@;
        assert(probe_views(was) == filed_under(before, port));
        list.push(parsed.probe.clone());
        assert(probe_views(list@) == probe_views(was).push(parsed@.probe));
        db.insert(port, list);
        proof {
            assert(next == done.push(port));
            assert(!done.contains(port));
            assert forall|other: u16| other != port implies (next.contains(other)
                <==> done.contains(other)) by {
                if done.contains(other) {
                    let k = choose|k: int| 0 <= k < done.len() && done[k] == other;
                    assert(next[k] == other);
                }
            }
            assert(next.contains(port)) by {
                assert(next[j as int] == port);
            }
            assert forall|other: u16|
                {
                    &&& #[trigger] filed_under(db@, other) == if next.contains(other) {
                        filed_under(old(db)@, other).push(parsed@.probe)
                    } else {
                        filed_under(old(db)@, other)
                    }
                    &&& db@.contains_key(other) <==> old(db)@.contains_key(other) || next.contains(
                        other,
                    )
                } by {
                if other != port {
                    assert(filed_under(db@, other) == filed_under(before, other));
                }
            }
        }
        j += 1;
    }
    proof {
        assert(parsed@.ports.take(j as int) == parsed@.ports);
    }
}

/// Builds the database from the text of a probe-definition file. Lines that
/// are no `match` directive, and directives with fewer than four fields or
/// with a port specification that names no port, leave no trace; a directive
/// whose pattern field is malformed fails the whole.
pub fn load_probes_from_nmap(text: &str) -> (r: Result<HashMap<u16, Vec<Probe>>, ProbeError>)
    ensures
        match r {
            Ok(db) => parsed_file(text@) matches Ok(found) && holds(db@, found),
            Err(e) => parsed_file(text@) == Err::<Seq<ParsedProbeView>, _>(e),
        },
{
    broadcast use vstd::std_specs::hash::group_hash_axioms;

    let chars = to_chars(text);
    let all = line_spans(chars.as_slice());
    let mut db: HashMap<u16, Vec<Probe>> = HashMap::new();
    let ghost file = lines(text@);
    let ghost mut found: Seq<ParsedProbeView> = Seq::empty();
    let mut i: usize = 0;
    assert(file.take(0) == Seq::<Seq<char>>::empty());
    while i < all.len()
        invariant
            i <= all@.len(),
            chars@ == text@,
            file == lines(text@),
            spans_of(all@, chars@) == file,
            forall|k: int| 0 <= k < all@.len() ==> (#[trigger] all@[k]).within(chars@.len()),
            entries(file.take(i as int)) == Ok::<_, ProbeError>(found),
            holds(db@, found),
        decreases all@.len() - i,
    {
        let line = slice_of(chars.as_slice(), all[i]);
        proof {
            assert(line@ == file[i as int]);
            assert(file.take(i + 1).drop_last() == file.take(i as int));
        }
        if directive(line) {
            match parse_directive(line) {
                Err(e) => {
                    proof {
                        lemma_error_aborts(file, i + 1);
                    }
                    return Err(e);
                },
                Ok(None) => {},
                Ok(Some(parsed)) => {
                    let ghost before = db@;
                    file_signature(&mut db, &parsed);
                    proof {
                        lemma_filed(before, db@, found, parsed@);
                        found = found.push(parsed@);
                    }
                },
            }
        }
        i += 1;
    }
    proof {
        assert(file.take(i as int) == file);
    }
    Ok(db)
}

/// `sV` stands for fourteen ports, these and no others, none twice.
pub proof fn lemma_sv_ports()
    ensures
        sv_ports().len() == 14,
        sv_ports().no_duplicates(),
        forall|port: u16|
            sv_ports().contains(port) <==> port == 21 || port == 22 || port == 25 || port == 53
                || port == 80 || port == 110 || port == 143 || port == 443 || port == 993 || port
                == 995 || port == 3306 || port == 3389 || port == 5900 || port == 8080,
{
    let sv = sv_ports();
    assert(sv[0] == 21 && sv[1] == 22 && sv[2] == 25 && sv[3] == 53 && sv[4] == 80 && sv[5] == 110
        && sv[6] == 143 && sv[7] == 443 && sv[8] == 993 && sv[9] == 995 && sv[10] == 3306 && sv[11]
        == 3389 && sv[12] == 5900 && sv[13] == 8080);
}

/// A tag is UTF-8, and as text it is the service name followed by CR LF.
pub proof fn lemma_tag_text(service: Seq<char>)
    ensures
        valid_utf8(tag_bytes(service)),
        decode_utf8(tag_bytes(service)) == service + seq!['\r', '\n'],
{
    broadcast use {vstd::utf8::encode_utf8_valid_utf8, vstd::utf8::encode_utf8_decode_utf8};

}

/// What is filed under a port after the first `n` directives stays in front
/// of whatever the later directives add.
pub proof fn lemma_signatures_prefix(found: Seq<ParsedProbeView>, port: u16, n: int)
    requires
        0 <= n <= found.len(),
    ensures
        signatures_for(found.take(n), port).len() <= signatures_for(found, port).len(),
        signatures_for(found.take(n), port) == signatures_for(found, port).take(
            signatures_for(found.take(n), port).len() as int,
        ),
    decreases found.len() - n,
{
    if n < found.len() {
        assert(found.take(n + 1).drop_last() == found.take(n));
        lemma_signatures_prefix(found, port, n + 1);
    } else {
        assert(found.take(n) == found);
    }
}

/// Signatures keep file order: of two directives that name the same port,
/// the signature of the earlier one stands before that of the later one.
/// Each stands at the place given by the number of directives before it that
/// name the port.
pub proof fn lemma_file_order(found: Seq<ParsedProbeView>, port: u16, i: int, j: int)
    requires
        0 <= i < j < found.len(),
        found[i].ports.contains(port),
        found[j].ports.contains(port),
    ensures
        signatures_for(found.take(i), port).len() < signatures_for(found.take(j), port).len(),
        signatures_for(found.take(j), port).len() < signatures_for(found, port).len(),
        signatures_for(found, port)[signatures_for(found.take(i), port).len() as int]
            == found[i].probe,
        signatures_for(found, port)[signatures_for(found.take(j), port).len() as int]
            == found[j].probe,
{
    lemma_signature_place(found, port, i);
    lemma_signature_place(found, port, j);
    assert(found.take(j).take(i + 1) == found.take(i + 1));
    assert(found.take(i + 1).drop_last() == found.take(i));
    lemma_signatures_prefix(found.take(j), port, i + 1);
}

/// The signature of a directive that names a port stands, among those filed
/// under the port, behind the signatures of the directives before it.
pub proof fn lemma_signature_place(found: Seq<ParsedProbeView>, port: u16, i: int)
    requires
        0 <= i < found.len(),
        found[i].ports.contains(port),
    ensures
        signatures_for(found.take(i), port).len() < signatures_for(found, port).len(),
        signatures_for(found, port)[signatures_for(found.take(i), port).len() as int]
            == found[i].probe,
{
    let upto = found.take(i + 1);
    let at = signatures_for(found.take(i), port).len() as int;
    assert(upto.drop_last() == found.take(i));
    assert(upto.last() == found[i]);
    assert(signatures_for(upto, port) == signatures_for(found.take(i), port).push(found[i].probe));
    assert(signatures_for(upto, port)[at] == found[i].probe);
    lemma_signatures_prefix(found, port, i + 1);
    assert(signatures_for(found, port).take(at + 1)[at] == signatures_for(found, port)[at]);
}

/// Each signature filed under a port comes from a directive that names the
/// port: the one with as many such directives before it as the signature has
/// signatures before it.
pub proof fn lemma_signature_source(found: Seq<ParsedProbeView>, port: u16, at: int) -> (i: int)
    requires
        0 <= at < signatures_for(found, port).len(),
    ensures
        0 <= i < found.len(),
        found[i].ports.contains(port),
        signatures_for(found.take(i), port).len() == at,
        signatures_for(found, port)[at] == found[i].probe,
    decreases found.len(),
{
    let before = found.drop_last();
    if found.last().ports.contains(port) && at == signatures_for(before, port).len() {
        assert(found.take(found.len() - 1) == before);
        found.len() - 1
    } else {
        let i = lemma_signature_source(before, port, at);
        assert(before.take(i) == found.take(i));
        i
    }
}

/// A line that yields nothing leaves no trace: the file yields what it would
/// yield without that line. Such are the lines that are no directive, the
/// directives with fewer than four fields, and those whose pattern field is
/// well-formed and whose port specification names no port.
pub proof fn lemma_dropped_line(file: Seq<Seq<char>>, i: int)
    requires
        0 <= i < file.len(),
        line_entry(file[i]) == Ok::<Option<ParsedProbeView>, ProbeError>(None),
    ensures
        entries(file.remove(i)) == entries(file),
    decreases file.len(),
{
    if i == file.len() - 1 {
        assert(file.remove(i) == file.drop_last());
    } else {
        lemma_dropped_line(file.drop_last(), i);
        assert(file.remove(i).drop_last() == file.drop_last().remove(i));
        assert(file.remove(i).last() == file.last());
    }
}

/// A directive whose port specification names no port yields nothing, as
/// long as its pattern field is well-formed.
pub proof fn lemma_portless_directive(line: Seq<char>)
    requires
        words(line).len() >= 4,
        port_spec(words(line)[3]).len() == 0,
        delimited(words(line)[2]) matches Some(pattern) && compiled_language(pattern) is Some,
    ensures
        parsed_line(line) == Ok::<Option<ParsedProbeView>, ProbeError>(None),
{
}

} // verus!
