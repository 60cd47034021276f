//! The decisions of a sweep: which units of work a configuration and the
//! liveness of the hosts call for, and what each unit reports.
//!
//! A unit is one port of one host. The caller pings, connects and reads; the
//! functions here say what to attempt and how to read the outcome.

use vstd::prelude::*;

verus! {

broadcast use {
    vstd::seq_lib::lemma_seq_contains_after_push,
    vstd::seq_lib::lemma_seq_concat_contains_all_elements,
};

/// The time allowed for each network operation where the configuration
/// names none: three seconds.
pub const DEFAULT_TIMEOUT_MS: u64 = 3000;

/// The ports of `s` without repetition: of each port its first occurrence,
/// in the order of `s`.
pub open spec fn distinct(s: Seq<u16>) -> Seq<u16>
    decreases s.len(),
{
    if s.len() == 0 {
        Seq::empty()
    } else if distinct(s.drop_last()).contains(s.last()) {
        distinct(s.drop_last())
    } else {
        distinct(s.drop_last()).push(s.last())
    }
}

/// `distinct` repeats no port and holds just the ports of its argument.
pub proof fn lemma_distinct(s: Seq<u16>)
    ensures
        distinct(s).no_duplicates(),
        forall|port: u16| distinct(s).contains(port) <==> s.contains(port),
    decreases s.len(),
{
    if s.len() > 0 {
        let head = s.drop_last();
        lemma_distinct(head);
        assert forall|port: u16| distinct(s).contains(port) <==> s.contains(port) by {
            if s.contains(port) {
                let i = choose|i: int| 0 <= i < s.len() && s[i] == port;
                if i < s.len() - 1 {
                    assert(head[i] == port);
                }
            }
            if head.contains(port) {
                let i = choose|i: int| 0 <= i < head.len() && head[i] == port;
                assert(s[i] == port);
            }
            assert(s[s.len() - 1] == s.last());
        }
    }
}

/// The configuration of one sweep.
#[derive(Debug)]
pub struct ScanParams {
    alive_scan: bool,
    port_scan: bool,
    ports: Vec<u16>,
    finger_scan: bool,
    timeout: Option<u64>,
}

/// A configuration as the contracts see it.
pub struct ScanParamsView {
    /// Whether a host must answer an echo request before its ports are tried.
    pub alive_scan: bool,
    /// Whether ports are tried at all.
    pub port_scan: bool,
    /// The ports to try on each host, in order, none twice.
    pub ports: Seq<u16>,
    /// Whether the service behind an open port is to be identified.
    pub finger_scan: bool,
    /// The time allowed for each network operation, in milliseconds.
    pub timeout: Option<u64>,
}

impl Clone for ScanParams {
    fn clone(&self) -> (r: Self)
        ensures
            r@ == self@,
    {
        proof {
            use_type_invariant(self);
        }
        ScanParams {
            alive_scan: self.alive_scan,
            port_scan: self.port_scan,
            ports: self.ports.clone(),
            finger_scan: self.finger_scan,
            timeout: self.timeout,
        }
    }
}

impl View for ScanParams {
    type V = ScanParamsView;

    closed spec fn view(&self) -> ScanParamsView {
        ScanParamsView {
            alive_scan: self.alive_scan,
            port_scan: self.port_scan,
            ports: self.ports@,
            finger_scan: self.finger_scan,
            timeout: self.timeout,
        }
    }
}

/// One unit of work: a port of a host. The host is named by its place in the
/// list of targets.
#[derive(Clone, Copy, Debug, PartialEq, Eq, Structural)]
pub struct ScanUnit {
    pub host: usize,
    pub port: u16,
}

/// Whether the ports of a host are tried: only where ports are scanned at
/// all, and, where liveness is checked, only if the host answered.
pub open spec fn scans_host(params: ScanParamsView, answered: bool) -> bool {
    params.port_scan && (!params.alive_scan || answered)
}

/// The units of one host: one for each port, in order, or none.
pub open spec fn host_units(params: ScanParamsView, host: usize, answered: bool) -> Seq<ScanUnit> {
    if scans_host(params, answered) {
        Seq::new(params.ports.len(), |k: int| ScanUnit { host, port: params.ports[k] })
    } else {
        Seq::empty()
    }
}

/// The units of a sweep over `answered.len()` hosts, host by host.
/// `answered[h]` says whether host `h` answered the echo request; it counts
/// for nothing where liveness is not checked.
pub open spec fn planned(params: ScanParamsView, answered: Seq<bool>) -> Seq<ScanUnit>
    decreases answered.len(),
{
    if answered.len() == 0 {
        Seq::empty()
    } else {
        planned(params, answered.drop_last()) + host_units(
            params,
            (answered.len() - 1) as usize,
            answered.last(),
        )
    }
}

/// How many of the hosts have their ports tried.
pub open spec fn scanned_hosts(params: ScanParamsView, answered: Seq<bool>) -> nat
    decreases answered.len(),
{
    if answered.len() == 0 {
        0
    } else if scans_host(params, answered.last()) {
        scanned_hosts(params, answered.drop_last()) + 1
    } else {
        scanned_hosts(params, answered.drop_last())
    }
}

impl ScanParams {
    #[verifier::type_invariant]
    spec fn ports_are_distinct(self) -> bool {
        self.ports@.no_duplicates()
    }

    /// A configuration with the given settings. Of a port that is listed
    /// more than once only the first occurrence counts.
    pub fn new(
        alive_scan: bool,
        port_scan: bool,
        ports: Vec<u16>,
        finger_scan: bool,
        timeout: Option<u64>,
    ) -> (params: ScanParams)
        ensures
            params@ == (ScanParamsView {
                alive_scan,
                port_scan,
                ports: distinct(ports@),
                finger_scan,
                timeout,
            }),
    {
        let ports = without_repetition(&ports);
        ScanParams { alive_scan, port_scan, ports, finger_scan, timeout }
    }

    /// Whether a host must answer an echo request before its ports are tried.
    pub fn alive_scan(&self) -> (on: bool)
        ensures
            on == self@.alive_scan,
    {
        self.alive_scan
    }

    /// Whether ports are tried at all.
    pub fn port_scan(&self) -> (on: bool)
        ensures
            on == self@.port_scan,
    {
        self.port_scan
    }

    /// The ports to try on each host, in order, none twice.
    pub fn ports(&self) -> (ports: &Vec<u16>)
        ensures
            ports@ == self@.ports,
            ports@.no_duplicates(),
    {
        proof {
            use_type_invariant(self);
        }
        &self.ports
    }

    /// Whether the service behind an open port is to be identified.
    pub fn finger_scan(&self) -> (on: bool)
        ensures
            on == self@.finger_scan,
    {
        self.finger_scan
    }

    /// The configured time for each network operation, in milliseconds.
    pub fn timeout(&self) -> (timeout: Option<u64>)
        ensures
            timeout == self@.timeout,
    {
        self.timeout
    }

    /// The units of host number `host`, given whether it answered the echo
    /// request.
    pub fn units_for_host(&self, host: usize, answered: bool) -> (units: Vec<ScanUnit>)
        ensures
            units@ == host_units(self@, host, answered),
    {
        let mut units: Vec<ScanUnit> = Vec::new();
        if self.port_scan && (!self.alive_scan || answered) {
            let mut k: usize = 0;
            while k < self.ports.len()
                invariant
                    k <= self.ports@.len(),
                    units@ == Seq::new(
                        k as nat,
                        |i: int| ScanUnit { host, port: self.ports@[i] },
                    ),
                decreases self.ports@.len() - k,
            {
                units.push(ScanUnit { host, port: self.ports[k] });
                k += 1;
            }
        }
        units
    }

    /// The units of a whole sweep, host by host.
    pub fn plan(&self, answered: &Vec<bool>) -> (units: Vec<ScanUnit>)
        ensures
            units@ == planned(self@, answered@),
    {
        let mut units: Vec<ScanUnit> = Vec::new();
        let mut host: usize = 0;
        assert(answered@.take(0) == Seq::<bool>::empty());
        while host < answered.len()
            invariant
                host <= answered@.len(),
                units@ == planned(self@, answered@.take(host as int)),
            decreases answered@.len() - host,
        {
            let mut more = self.units_for_host(host, answered[host]);
            proof {
                assert(answered@.take(host + 1).drop_last() == answered@.take(host as int));
            }
            units.append(&mut more);
            host += 1;
        }
        proof {
            assert(answered@.take(host as int) == answered@);
        }
        units
    }
}

/// The ports of `ports` without repetition.
fn without_repetition(ports: &Vec<u16>) -> (kept: Vec<u16>)
    ensures
        kept@ == distinct(ports@),
        kept@.no_duplicates(),
{
    let mut seen: Vec<bool> = Vec::new();
    let mut n: usize = 0;
    while n < 65536
        invariant
            n <= 65536,
            seen@.len() == n,
            forall|i: int| 0 <= i < n ==> !seen@[i],
        decreases 65536 - n,
    {
        seen.push(false);
        n += 1;
    }
    let mut kept: Vec<u16> = Vec::new();
    let mut i: usize = 0;
    assert(ports@.take(0) == Seq::<u16>::empty());
    while i < ports.len()
        invariant
            i <= ports@.len(),
            seen@.len() == 65536,
            kept@ == distinct(ports@.take(i as int)),
            forall|port: u16| seen@[port as int] == kept@.contains(port),
        decreases ports@.len() - i,
    {
        let port = ports[i];
        proof {
            assert(ports@.take(i + 1).drop_last() == ports@.take(i as int));
        }
        if !seen[port as usize] {
            seen.set(port as usize, true);
            kept.push(port);
        }
        i += 1;
    }
    proof {
        assert(ports@.take(i as int) == ports@);
        lemma_distinct(ports@);
    }
    kept
}

/// How an attempt to connect ended.
#[derive(Clone, Copy, Debug, PartialEq, Eq, Structural)]
pub enum ConnectOutcome {
    /// The connection was made.
    Connected,
    /// The peer refused it.
    Refused,
    /// Nothing came back before the time was up.
    NoAnswer,
}

/// What is known of a port once its unit is done.
#[derive(Clone, Copy, Debug, PartialEq, Eq, Structural)]
pub enum PortStatus {
    Open,
    Closed,
    Filtered,
}

/// The status that an attempt to connect shows.
pub open spec fn status_for(outcome: ConnectOutcome) -> PortStatus {
    match outcome {
        ConnectOutcome::Connected => PortStatus::Open,
        ConnectOutcome::Refused => PortStatus::Closed,
        ConnectOutcome::NoAnswer => PortStatus::Filtered,
    }
}

/// The status that an attempt to connect shows.
pub fn port_status(outcome: ConnectOutcome) -> (status: PortStatus)
    ensures
        status == status_for(outcome),
{
    match outcome {
        ConnectOutcome::Connected => PortStatus::Open,
        ConnectOutcome::Refused => PortStatus::Closed,
        ConnectOutcome::NoAnswer => PortStatus::Filtered,
    }
}

/// The sequence number of the echo request to host number `host`: the
/// hosts count up from zero, and the count wraps at 65536.
pub fn echo_sequence(host: usize) -> (sequence: u16)
    ensures
        sequence == host % 65536,
{
    (host % 65536) as u16
}

/// What a finished unit reports.
#[derive(Debug, PartialEq, Eq)]
pub struct ScanResult {
    pub host: String,
    pub port: u16,
    pub status: PortStatus,
    pub identification: Option<String>,
}

/// A result as the contracts see it.
pub struct ScanResultView {
    pub host: Seq<char>,
    pub port: u16,
    pub status: PortStatus,
    pub identification: Option<Seq<char>>,
}

impl View for ScanResult {
    type V = ScanResultView;

    open spec fn view(&self) -> ScanResultView {
        ScanResultView {
            host: self.host@,
            port: self.port,
            status: self.status,
            identification: match self.identification {
                Some(text) => Some(text@),
                None => None,
            },
        }
    }
}

/// Whether the service behind a port is identified: only where the
/// configuration asks for it, and only behind a connection that was made.
pub open spec fn identifies(params: ScanParamsView, outcome: ConnectOutcome) -> bool {
    params.finger_scan && outcome == ConnectOutcome::Connected
}

/// The result of a unit: the status that the attempt to connect shows, and
/// the identification where the service was to be identified.
pub open spec fn reported(
    params: ScanParamsView,
    host: Seq<char>,
    port: u16,
    outcome: ConnectOutcome,
    identification: Option<Seq<char>>,
) -> ScanResultView {
    ScanResultView {
        host,
        port,
        status: status_for(outcome),
        identification: if identifies(params, outcome) {
            identification
        } else {
            None
        },
    }
}

impl ScanParams {
    /// Whether the service behind a port is to be identified, given how the
    /// attempt to connect ended.
    pub fn wants_identification(&self, outcome: ConnectOutcome) -> (wanted: bool)
        ensures
            wanted == identifies(self@, outcome),
    {
        self.finger_scan && matches!(outcome, ConnectOutcome::Connected)
    }

    /// The result of a unit. `identification` is what the identification
    /// gave; it is dropped where none was called for.
    pub fn report(
        &self,
        host: String,
        port: u16,
        outcome: ConnectOutcome,
        identification: Option<String>,
    ) -> (result: ScanResult)
        ensures
            result@ == reported(
                self@,
                host@,
                port,
                outcome,
                match identification {
                    Some(text) => Some(text@),
                    None => None,
                },
            ),
    {
        let status = port_status(outcome);
        if self.wants_identification(outcome) {
            ScanResult { host, port, status, identification }
        } else {
            ScanResult { host, port, status, identification: None }
        }
    }

    /// The time allowed for each network operation, in milliseconds: the
    /// configured one, or `DEFAULT_TIMEOUT_MS`.
    pub fn timeout_millis(&self) -> (millis: u64)
        ensures
            millis == match self@.timeout {
                Some(millis) => millis,
                None => DEFAULT_TIMEOUT_MS,
            },
    {
        match self.timeout {
            Some(millis) => millis,
            None => DEFAULT_TIMEOUT_MS,
        }
    }
}

/// A unit is planned just where its host is among the targets and has its
/// ports tried, and its port is among the configured ones.
pub proof fn lemma_planned_contains(params: ScanParamsView, answered: Seq<bool>, unit: ScanUnit)
    requires
        answered.len() <= usize::MAX,
    ensures
        planned(params, answered).contains(unit) <==> unit.host < answered.len() && scans_host(
            params,
            answered[unit.host as int],
        ) && params.ports.contains(unit.port),
    decreases answered.len(),
{
    if answered.len() > 0 {
        let host = (answered.len() - 1) as usize;
        let last = host_units(params, host, answered.last());
        lemma_planned_contains(params, answered.drop_last(), unit);
        if params.ports.contains(unit.port) && unit.host == host && scans_host(
            params,
            answered.last(),
        ) {
            let k = choose|k: int| 0 <= k < params.ports.len() && params.ports[k] == unit.port;
            assert(last[k] == unit);
        }
        if last.contains(unit) {
            let k = choose|k: int| 0 <= k < last.len() && last[k] == unit;
            assert(params.ports[k] == unit.port);
        }
    }
}

/// A sweep has one unit for each configured port of each host whose ports
/// are tried.
pub proof fn lemma_planned_len(params: ScanParamsView, answered: Seq<bool>)
    ensures
        planned(params, answered).len() == scanned_hosts(params, answered) * params.ports.len(),
    decreases answered.len(),
{
    if answered.len() > 0 {
        lemma_planned_len(params, answered.drop_last());
        let before = scanned_hosts(params, answered.drop_last());
        let ports = params.ports.len();
        assert((before + 1) * ports == before * ports + ports) by (nonlinear_arith);
    } else {
        assert(0 * params.ports.len() == 0);
    }
}

/// No unit is planned twice.
pub proof fn lemma_planned_distinct(params: ScanParamsView, answered: Seq<bool>)
    requires
        params.ports.no_duplicates(),
        answered.len() <= usize::MAX,
    ensures
        planned(params, answered).no_duplicates(),
    decreases answered.len(),
{
    if answered.len() > 0 {
        let host = (answered.len() - 1) as usize;
        let before = planned(params, answered.drop_last());
        let last = host_units(params, host, answered.last());
        lemma_planned_distinct(params, answered.drop_last());
        assert forall|i: int, j: int| 0 <= i < before.len() && 0 <= j < last.len() implies before[i]
            != last[j] by {
            lemma_planned_contains(params, answered.drop_last(), before[i]);
            assert(before.contains(before[i]));
        }
        vstd::seq_lib::lemma_no_dup_in_concat(before, last);
    }
}

/// With liveness checking off, every port of every host is tried,
/// whatever the hosts answered: hosts times ports units.
pub proof fn lemma_every_host_without_liveness(params: ScanParamsView, answered: Seq<bool>)
    requires
        !params.alive_scan,
        params.port_scan,
    ensures
        planned(params, answered).len() == answered.len() * params.ports.len(),
{
    lemma_planned_len(params, answered);
    lemma_all_scanned(params, answered);
}

proof fn lemma_all_scanned(params: ScanParamsView, answered: Seq<bool>)
    requires
        !params.alive_scan,
        params.port_scan,
    ensures
        scanned_hosts(params, answered) == answered.len(),
    decreases answered.len(),
{
    if answered.len() > 0 {
        lemma_all_scanned(params, answered.drop_last());
    }
}

/// With liveness checking on, a host that did not answer has none of its
/// ports tried.
pub proof fn lemma_silent_host_is_skipped(
    params: ScanParamsView,
    answered: Seq<bool>,
    unit: ScanUnit,
)
    requires
        params.alive_scan,
        answered.len() <= usize::MAX,
        unit.host < answered.len(),
        !answered[unit.host as int],
    ensures
        !planned(params, answered).contains(unit),
{
    lemma_planned_contains(params, answered, unit);
}

} // verus!
