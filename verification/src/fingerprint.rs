//! Identifying the service behind an open port from what it sends: the
//! banner is held against the signatures filed under the port, and a service
//! that stays unrecognised is nudged once with an empty line.
//!
//! The exchange with the peer is run by the caller. [`Session::advance`] takes
//! what the caller heard and says what to do next.

use crate::probe::{
    filed_under, lemma_signature_place, lemma_signature_source, probe_views, signatures_for,
    ParsedProbeView, Probe, ProbeView,
};
use crate::text::{decode_lossy, lossy_text};
use std::collections::HashMap;
use vstd::prelude::*;
use vstd::slice::slice_to_vec;

verus! {

broadcast use vstd::std_specs::hash::group_hash_axioms;

/// The least index `i >= from` whose signature accepts `text`, or
/// `sigs.len()` where no signature from `from` on accepts it.
pub open spec fn first_accepting(sigs: Seq<ProbeView>, text: Seq<char>, from: int) -> int
    decreases sigs.len() - from,
{
    if from >= sigs.len() {
        sigs.len() as int
    } else if from >= 0 && sigs[from].accepts.contains(text) {
        from
    } else {
        first_accepting(sigs, text, from + 1)
    }
}

/// The tag, as text, of the first signature that accepts the banner read as
/// text; `None` where no signature accepts it.
pub open spec fn identified_by(sigs: Seq<ProbeView>, banner: Seq<u8>) -> Option<Seq<char>> {
    let i = first_accepting(sigs, lossy_text(banner), 0);
    if i < sigs.len() {
        Some(lossy_text(sigs[i].payload))
    } else {
        None
    }
}

/// The banner after the reply to the trigger was read. The read hands back
/// the stream from its start, so only what lies beyond the banner is new.
pub open spec fn extended(banner: Seq<u8>, reply: Seq<u8>) -> Seq<u8> {
    if reply.len() > banner.len() {
        banner + reply.subrange(banner.len() as int, reply.len() as int)
    } else {
        banner
    }
}

/// The answer once nothing more will be read: the tag of the first signature
/// that accepts the banner, else the banner itself as text, and nothing where
/// no byte was ever received.
pub open spec fn concluded(sigs: Seq<ProbeView>, banner: Seq<u8>) -> Option<Seq<char>> {
    match identified_by(sigs, banner) {
        Some(tag) => Some(tag),
        None => if banner.len() == 0 {
            None
        } else {
            Some(lossy_text(banner))
        },
    }
}

/// The answer of a whole exchange in which `banner` was seen first and
/// `reply` was read after the trigger. The reply counts only where the banner
/// alone was not recognised.
pub open spec fn identification(sigs: Seq<ProbeView>, banner: Seq<u8>, reply: Seq<u8>) -> Option<
    Seq<char>,
> {
    match identified_by(sigs, banner) {
        Some(tag) => Some(tag),
        None => concluded(sigs, extended(banner, reply)),
    }
}

/// The text of an answer.
pub open spec fn answer_text(answer: Option<String>) -> Option<Seq<char>> {
    match answer {
        Some(text) => Some(text@),
        None => None,
    }
}

/// `first_accepting` stays within `from..=sigs.len()`, stops on a signature
/// that accepts the text, and passes over none that does.
pub proof fn lemma_first_accepting(sigs: Seq<ProbeView>, text: Seq<char>, from: int)
    requires
        0 <= from <= sigs.len(),
    ensures
        from <= first_accepting(sigs, text, from) <= sigs.len(),
        first_accepting(sigs, text, from) < sigs.len() ==> sigs[first_accepting(
            sigs,
            text,
            from,
        )].accepts.contains(text),
        forall|i: int|
            from <= i < first_accepting(sigs, text, from) ==> !sigs[i].accepts.contains(text),
    decreases sigs.len() - from,
{
    if from < sigs.len() && !sigs[from].accepts.contains(text) {
        lemma_first_accepting(sigs, text, from + 1);
    }
}

/// The tag of the first signature in `list` that matches `banner`.
fn match_list(list: &Vec<Probe>, banner: &[u8]) -> (r: Option<String>)
    ensures
        answer_text(r) == identified_by(probe_views(list@), banner@),
{
    let text = decode_lossy(banner);
    let ghost sigs = probe_views(list@);
    let mut i: usize = 0;
    while i < list.len()
        invariant
            i <= list@.len(),
            sigs == probe_views(list@),
            text@ == lossy_text(banner@),
            first_accepting(sigs, text@, 0) == first_accepting(sigs, text@, i as int),
        decreases list@.len() - i,
    {
        assert(sigs[i as int] == list@[i as int]@);
        if list[i].matches(text.as_str()) {
            return Some(list[i].tag());
        }
        i += 1;
    }
    None
}

/// The tag of the first signature filed under `port` that matches `banner`.
/// Signatures are tried in file order; a port that the database does not
/// know has none.
pub fn match_banner(db: &HashMap<u16, Vec<Probe>>, port: u16, banner: &[u8]) -> (r: Option<
    String,
>)
    ensures
        answer_text(r) == identified_by(filed_under(db@, port), banner@),
{
    match db.get(&port) {
        Some(list) => match_list(list, banner),
        None => None,
    }
}

/// The banner after the reply to the trigger was read.
pub fn extend_banner(banner: Vec<u8>, reply: &[u8]) -> (r: Vec<u8>)
    ensures
        r@ == extended(banner@, reply@),
{
    let mut r = banner;
    let mut i: usize = r.len();
    while i < reply.len()
        invariant
            banner@.len() <= i,
            i <= reply@.len() || i == banner@.len(),
            r@ == if i > banner@.len() {
                banner@ + reply@.subrange(banner@.len() as int, i as int)
            } else {
                banner@
            },
        decreases reply@.len() - i,
    {
        r.push(reply[i]);
        i += 1;
    }
    r
}

/// The answer once nothing more will be read.
pub fn conclude(db: &HashMap<u16, Vec<Probe>>, port: u16, banner: &[u8]) -> (r: Option<String>)
    ensures
        answer_text(r) == concluded(filed_under(db@, port), banner@),
{
    match match_banner(db, port, banner) {
        Some(tag) => Some(tag),
        None => if banner.len() == 0 {
            None
        } else {
            Some(decode_lossy(banner))
        },
    }
}

/// The line terminator that nudges a silent service: CR LF.
pub fn trigger_bytes() -> (bytes: Vec<u8>)
    ensures
        bytes@ == seq![13u8, 10u8],
{
    let bytes: Vec<u8> = vec![13, 10];
    assert(bytes@ =~= seq![13u8, 10u8]);
    bytes
}

/// Where an exchange with a peer stands.
#[derive(Debug, PartialEq, Eq)]
pub enum Session {
    /// Nothing was read yet.
    AwaitBanner,
    /// The banner was not recognised and the trigger is under way.
    AwaitReply { banner: Vec<u8> },
    /// The exchange is over.
    Done { identification: Option<String> },
}

/// What the caller heard from the peer.
#[derive(Debug, PartialEq, Eq)]
pub enum Heard {
    /// The bytes that the peer had sent by itself when the wait ended, read
    /// without consuming them: empty where nothing arrived in time.
    Banner(Vec<u8>),
    /// What was read after the trigger, from the start of the stream: empty
    /// where the trigger could not be sent or nothing could be read in time.
    Reply(Vec<u8>),
}

/// What the caller is to do next.
#[derive(Debug, PartialEq, Eq)]
pub enum Action {
    /// Wait for the banner and hand it in.
    Peek,
    /// Send the trigger, read, and hand in what was read.
    SendTrigger,
    /// Report the identification; the exchange is over.
    Report(Option<String>),
    /// The session was not waiting for what it was handed: carry on as before.
    Ignore,
}

pub enum SessionView {
    AwaitBanner,
    AwaitReply { banner: Seq<u8> },
    Done { identification: Option<Seq<char>> },
}

pub enum HeardView {
    Banner(Seq<u8>),
    Reply(Seq<u8>),
}

pub enum ActionView {
    Peek,
    SendTrigger,
    Report(Option<Seq<char>>),
    Ignore,
}

impl View for Session {
    type V = SessionView;

    open spec fn view(&self) -> SessionView {
        match self {
            Session::AwaitBanner => SessionView::AwaitBanner,
            Session::AwaitReply { banner } => SessionView::AwaitReply { banner: banner@ },
            Session::Done { identification } => SessionView::Done {
                identification: answer_text(*identification),
            },
        }
    }
}

impl View for Heard {
    type V = HeardView;

    open spec fn view(&self) -> HeardView {
        match self {
            Heard::Banner(bytes) => HeardView::Banner(bytes@),
            Heard::Reply(bytes) => HeardView::Reply(bytes@),
        }
    }
}

impl View for Action {
    type V = ActionView;

    open spec fn view(&self) -> ActionView {
        match self {
            Action::Peek => ActionView::Peek,
            Action::SendTrigger => ActionView::SendTrigger,
            Action::Report(answer) => ActionView::Report(answer_text(*answer)),
            Action::Ignore => ActionView::Ignore,
        }
    }
}

/// The session after `heard`, and what to do next. A banner that a signature
/// accepts ends the exchange at once; one that none accepts calls for the
/// trigger; the reply ends it either way. Anything the session is not
/// waiting for is ignored.
pub open spec fn advanced(sigs: Seq<ProbeView>, session: SessionView, heard: HeardView) -> (
    SessionView,
    ActionView,
) {
    match (session, heard) {
        (SessionView::AwaitBanner, HeardView::Banner(banner)) => match identified_by(
            sigs,
            banner,
        ) {
            Some(tag) => (
                SessionView::Done { identification: Some(tag) },
                ActionView::Report(Some(tag)),
            ),
            None => (SessionView::AwaitReply { banner }, ActionView::SendTrigger),
        },
        (SessionView::AwaitReply { banner }, HeardView::Reply(reply)) => {
            let answer = concluded(sigs, extended(banner, reply));
            (SessionView::Done { identification: answer }, ActionView::Report(answer))
        },
        _ => (session, ActionView::Ignore),
    }
}

impl Session {
    /// A new exchange, and its first move: to wait for the banner.
    pub fn begin() -> (r: (Session, Action))
        ensures
            r.0@ == SessionView::AwaitBanner,
            r.1@ == ActionView::Peek,
    {
        (Session::AwaitBanner, Action::Peek)
    }

    /// Takes what the caller heard on the connection to `port`, and returns
    /// the session as it stands now with the caller's next move.
    pub fn advance(self, db: &HashMap<u16, Vec<Probe>>, port: u16, heard: Heard) -> (r: (
        Session,
        Action,
    ))
        ensures
            (r.0@, r.1@) == advanced(filed_under(db@, port), self@, heard@),
    {
        match (self, heard) {
            (Session::AwaitBanner, Heard::Banner(banner)) => {
                match match_banner(db, port, banner.as_slice()) {
                    Some(tag) => {
                        let report = tag.clone();
                        (Session::Done { identification: Some(tag) }, Action::Report(Some(report)))
                    },
                    None => (Session::AwaitReply { banner }, Action::SendTrigger),
                }
            },
            (Session::AwaitReply { banner }, Heard::Reply(reply)) => {
                let whole = extend_banner(banner, reply.as_slice());
                let answer = conclude(db, port, whole.as_slice());
                let report = answer.clone();
                (Session::Done { identification: answer }, Action::Report(report))
            },
            (session, _) => (session, Action::Ignore),
        }
    }
}

/// The answer of a whole exchange, where both what was seen at first and what
/// was read after the trigger are at hand.
pub fn identify(db: &HashMap<u16, Vec<Probe>>, port: u16, banner: &[u8], reply: &[u8]) -> (r:
    Option<String>)
    ensures
        answer_text(r) == identification(filed_under(db@, port), banner@, reply@),
{
    match match_banner(db, port, banner) {
        Some(tag) => Some(tag),
        None => {
            let whole = extend_banner(slice_to_vec(banner), reply);
            conclude(db, port, whole.as_slice())
        },
    }
}

/// The first signature that accepts the banner gives the answer, whatever
/// the signatures behind it accept.
pub proof fn lemma_first_match_wins(sigs: Seq<ProbeView>, banner: Seq<u8>, i: int)
    requires
        0 <= i < sigs.len(),
        sigs[i].accepts.contains(lossy_text(banner)),
        forall|k: int| 0 <= k < i ==> !sigs[k].accepts.contains(lossy_text(banner)),
    ensures
        identified_by(sigs, banner) == Some(lossy_text(sigs[i].payload)),
{
    lemma_first_accepting(sigs, lossy_text(banner), 0);
}

/// Directives are tried in file order: where a directive that names the
/// port accepts the banner, and no directive before it that names the port
/// does, its tag is the answer, whatever the directives after it accept.
pub proof fn lemma_earlier_directive_wins(
    found: Seq<ParsedProbeView>,
    port: u16,
    banner: Seq<u8>,
    i: int,
)
    requires
        0 <= i < found.len(),
        found[i].ports.contains(port),
        found[i].probe.accepts.contains(lossy_text(banner)),
        forall|k: int|
            0 <= k < i && found[k].ports.contains(port) ==> !found[k].probe.accepts.contains(
                lossy_text(banner),
            ),
    ensures
        identified_by(signatures_for(found, port), banner) == Some(
            lossy_text(found[i].probe.payload),
        ),
{
    let sigs = signatures_for(found, port);
    let at = signatures_for(found.take(i), port).len() as int;
    lemma_signature_place(found, port, i);
    assert forall|b: int| 0 <= b < at implies !sigs[b].accepts.contains(lossy_text(banner)) by {
        let k = lemma_signature_source(found, port, b);
        if k >= i {
            assert(found.take(k).take(i) == found.take(i));
            crate::probe::lemma_signatures_prefix(found.take(k), port, i);
            if k > i {
                assert(found.take(k)[i] == found[i]);
                lemma_signature_place(found.take(k), port, i);
            }
        }
    }
    lemma_first_match_wins(sigs, banner, at);
}

/// A banner that a signature accepts ends the exchange at once: the answer
/// is reported and no trigger is sent.
pub proof fn lemma_recognised_banner_needs_no_trigger(
    sigs: Seq<ProbeView>,
    banner: Seq<u8>,
    i: int,
)
    requires
        0 <= i < sigs.len(),
        sigs[i].accepts.contains(lossy_text(banner)),
    ensures
        identified_by(sigs, banner) is Some,
        advanced(sigs, SessionView::AwaitBanner, HeardView::Banner(banner)) == (
            SessionView::Done { identification: identified_by(sigs, banner) },
            ActionView::Report(identified_by(sigs, banner)),
        ),
{
    lemma_first_accepting(sigs, lossy_text(banner), 0);
}

/// A peer that sends nothing, by itself or after the trigger, is not
/// identified: the answer is `None`, as long as no signature accepts the
/// empty text.
pub proof fn lemma_silent_peer_is_inconclusive(sigs: Seq<ProbeView>)
    requires
        forall|i: int|
            0 <= i < sigs.len() ==> !sigs[i].accepts.contains(lossy_text(Seq::<u8>::empty())),
    ensures
        identification(sigs, Seq::<u8>::empty(), Seq::<u8>::empty()) == None::<Seq<char>>,
{
    lemma_first_accepting(sigs, lossy_text(Seq::<u8>::empty()), 0);
}

/// A whole exchange, step by step, reports `identification`: either the
/// banner is recognised and reported at once, or the trigger is sent and the
/// reply settles the answer.
pub proof fn lemma_exchange(sigs: Seq<ProbeView>, banner: Seq<u8>, reply: Seq<u8>)
    ensures
        ({
            let first = advanced(sigs, SessionView::AwaitBanner, HeardView::Banner(banner));
            let second = advanced(sigs, first.0, HeardView::Reply(reply));
            let answer = identification(sigs, banner, reply);
            if identified_by(sigs, banner) is Some {
                first.1 == ActionView::Report(answer)
            } else {
                first.1 == ActionView::SendTrigger && second == (
                    SessionView::Done { identification: answer },
                    ActionView::Report(answer),
                )
            }
        }),
{
}

} // verus!
