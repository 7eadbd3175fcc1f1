//! The scan itself: the state of one batch of probes, the result of a whole
//! scan, and a run of all batches against a target whose accepting ports are
//! known.

use crate::plan::{
    batches_of, lemma_batches_cover, partition, port_sequence, port_sequence_of, BATCH_SIZE,
};
use crate::portset::{ascending, lemma_ascending, strictly_ascending, PortSet};
use crate::progress::{report_points, reports_until, Tally};
use vstd::prelude::*;

verus! {

/// How long one connection attempt may take, in milliseconds; an attempt
/// that has not succeeded by then has failed.
pub const CONNECT_TIMEOUT_MS: u64 = 500;

/// The ports of `ports` on which the target accepts, in the order of
/// `ports`; one that stands several times in `ports` is kept each time.
pub open spec fn hits(ports: Seq<u16>, accepting: Set<u16>) -> Seq<u16>
    decreases ports.len(),
{
    if ports.len() == 0 {
        Seq::empty()
    } else {
        let earlier = hits(ports.drop_last(), accepting);
        if accepting.contains(ports.last()) {
            earlier.push(ports.last())
        } else {
            earlier
        }
    }
}

/// The open ports that a scan of `ports` reports for a target that accepts
/// connections on `accepting`: the ports that are in both, ascending, each
/// once.
pub open spec fn open_ports_of(ports: Seq<u16>, accepting: Set<u16>) -> Seq<u16> {
    ascending(ports.to_set().intersect(accepting))
}

/// Where the probe of one port stands. A probe is made once: it starts
/// pending, is connecting while the attempt runs, and ends open or closed,
/// where it stays.
#[derive(Clone, Copy, Debug, PartialEq, Eq)]
pub enum ProbeState {
    /// Not attempted yet.
    Pending,
    /// The connection attempt is under way.
    Connecting,
    /// The connection was made.
    Open,
    /// The attempt failed, for whatever reason.
    Closed,
}

/// The state of a batch as plain values.
pub ghost struct BatchState {
    /// The ports of the batch, in probing order.
    pub ports: Seq<u16>,
    /// The outcomes of the probes that have returned, in probing order:
    /// whether the connection was made.
    pub outcomes: Seq<bool>,
    /// Whether the attempt on the next port is under way.
    pub connecting: bool,
}

impl BatchState {
    /// Whether the state is one that a batch can be in: no more outcomes
    /// than ports, and no attempt under way once every port has its outcome.
    pub open spec fn valid(self) -> bool {
        &&& self.outcomes.len() <= self.ports.len()
        &&& self.connecting ==> self.outcomes.len() < self.ports.len()
    }

    /// How many ports have been probed.
    pub open spec fn probed(self) -> nat {
        self.outcomes.len()
    }

    /// The port whose probe comes next, or `None` when every port of the
    /// batch has been probed.
    pub open spec fn next(self) -> Option<u16> {
        if self.probed() < self.ports.len() {
            Some(self.ports[self.probed() as int])
        } else {
            None
        }
    }

    /// Where the probe of the `i`-th port stands.
    pub open spec fn state_of(self, i: int) -> ProbeState {
        if i < self.probed() {
            if self.outcomes[i] {
                ProbeState::Open
            } else {
                ProbeState::Closed
            }
        } else if i == self.probed() && self.connecting {
            ProbeState::Connecting
        } else {
            ProbeState::Pending
        }
    }

    /// The probed ports that were open, in probing order.
    pub open spec fn open_ports(self) -> Seq<u16> {
        opened(self.ports.take(self.probed() as int), self.outcomes)
    }

    /// The state once the attempt on the next port is under way; nothing
    /// changes when no port is left.
    pub open spec fn started(self) -> BatchState {
        BatchState {
            ports: self.ports,
            outcomes: self.outcomes,
            connecting: self.probed() < self.ports.len(),
        }
    }

    /// The state once the attempt under way has returned.
    pub open spec fn settled(self, connected: bool) -> BatchState {
        BatchState { ports: self.ports, outcomes: self.outcomes.push(connected), connecting: false }
    }

    /// The state after the probes of the next ports, one for each item of
    /// `outcomes`, have been started and have returned with that outcome.
    pub open spec fn probed_with(self, outcomes: Seq<bool>) -> BatchState
        decreases outcomes.len(),
    {
        if outcomes.len() == 0 {
            self
        } else {
            self.probed_with(outcomes.drop_last()).started().settled(outcomes.last())
        }
    }
}

/// The state of a batch of which nothing has been probed yet.
pub open spec fn untouched(ports: Seq<u16>) -> BatchState {
    BatchState { ports, outcomes: Seq::empty(), connecting: false }
}

/// Those of `ports` whose outcome in `outcomes`, at the same position, is
/// that the connection was made.
pub open spec fn opened(ports: Seq<u16>, outcomes: Seq<bool>) -> Seq<u16>
    decreases outcomes.len(),
{
    if outcomes.len() == 0 || ports.len() != outcomes.len() {
        Seq::empty()
    } else {
        let earlier = opened(ports.drop_last(), outcomes.drop_last());
        if outcomes.last() {
            earlier.push(ports.last())
        } else {
            earlier
        }
    }
}

/// One batch of ports on its way through a worker: the ports and the
/// outcomes of the probes made so far. Each port is probed once, in the
/// order of the batch.
pub struct BatchScan {
    ports: Vec<u16>,
    outcomes: Vec<bool>,
    connecting: bool,
}

impl View for BatchScan {
    type V = BatchState;

    closed spec fn view(&self) -> BatchState {
        BatchState { ports: self.ports@, outcomes: self.outcomes@, connecting: self.connecting }
    }
}

impl BatchScan {
    /// A batch of which nothing has been probed yet.
    pub fn new(ports: Vec<u16>) -> (batch: BatchScan)
        ensures
            batch@ == untouched(ports@),
            batch@.valid(),
    {
        BatchScan { ports, outcomes: Vec::new(), connecting: false }
    }

    /// Starts the probe of the next port and gives the port, or gives `None`
    /// when the batch is done. Asked again before the outcome is recorded,
    /// it gives the same port: the attempt is still the same one.
    pub fn next_port(&mut self) -> (next: Option<u16>)
        requires
            old(self)@.valid(),
        ensures
            next == old(self)@.next(),
            final(self)@ == old(self)@.started(),
            final(self)@.valid(),
    {
        if self.outcomes.len() < self.ports.len() {
            self.connecting = true;
            Some(self.ports[self.outcomes.len()])
        } else {
            None
        }
    }

    /// Whether every port of the batch has been probed.
    pub fn is_done(&self) -> (done: bool)
        ensures
            done == (self@.next() is None),
    {
        self.outcomes.len() >= self.ports.len()
    }

    /// Where the probe of the `i`-th port of the batch stands.
    pub fn state(&self, i: usize) -> (state: ProbeState)
        requires
            i < self@.ports.len(),
        ensures
            state == self@.state_of(i as int),
    {
        if i < self.outcomes.len() {
            if self.outcomes[i] {
                ProbeState::Open
            } else {
                ProbeState::Closed
            }
        } else if i == self.outcomes.len() && self.connecting {
            ProbeState::Connecting
        } else {
            ProbeState::Pending
        }
    }

    /// Records the outcome of the attempt under way: the port is open where
    /// the connection was made, closed for any failure. The port is then
    /// done; it is not probed again.
    pub fn record(&mut self, connected: bool)
        requires
            old(self)@.valid(),
            old(self)@.connecting,
        ensures
            final(self)@ == old(self)@.settled(connected),
            final(self)@.valid(),
    {
        self.outcomes.push(connected);
        self.connecting = false;
    }

    /// The ports of the batch that were open, in probing order.
    pub fn into_open_ports(self) -> (open: Vec<u16>)
        requires
            self@.valid(),
        ensures
            open@ == self@.open_ports(),
    {
        let mut open: Vec<u16> = Vec::new();
        let mut i: usize = 0;
        while i < self.outcomes.len()
            invariant
                i <= self.outcomes@.len() <= self.ports@.len(),
                open@ == opened(self.ports@.take(i as int), self.outcomes@.take(i as int)),
            decreases self.outcomes.len() - i,
        {
            proof {
                assert(self.ports@.take(i + 1).drop_last() =~= self.ports@.take(i as int));
                assert(self.outcomes@.take(i + 1).drop_last() =~= self.outcomes@.take(i as int));
            }
            if self.outcomes[i] {
                open.push(self.ports[i]);
            }
            i = i + 1;
        }
        assert(self.outcomes@.take(i as int) =~= self.outcomes@);
        open
    }
}

/// Adds the open ports of one finished batch to those found so far.
pub fn merge_open_ports(found: &mut Vec<u16>, batch_open: Vec<u16>)
    ensures
        final(found)@ == old(found)@ + batch_open@,
{
    let mut batch_open = batch_open;
    found.append(&mut batch_open);
}

/// What a scan found: the open ports, ascending and each once, and how long
/// the scan took.
pub struct ScanResult {
    open_ports: Vec<u16>,
    elapsed_secs: u64,
}

impl ScanResult {
    #[verifier::type_invariant]
    spec fn in_order(self) -> bool {
        strictly_ascending(self.open_ports@)
    }

    /// The open ports.
    pub closed spec fn spec_open_ports(&self) -> &Vec<u16> {
        &self.open_ports
    }

    /// Seconds from the start of the scan to its end.
    pub closed spec fn spec_elapsed_secs(&self) -> u64 {
        self.elapsed_secs
    }

    /// The result of a scan that found `found` open, in any order and
    /// possibly with repeats, and took `elapsed_secs` seconds.
    pub fn new(found: &Vec<u16>, elapsed_secs: u64) -> (result: ScanResult)
        ensures
            result.open_ports()@ == ascending(found@.to_set()),
            result.elapsed_secs() == elapsed_secs,
    {
        let open_ports = PortSet::from_ports(found).to_ascending();
        proof {
            lemma_ascending(found@.to_set());
        }
        ScanResult { open_ports, elapsed_secs }
    }

    /// The open ports: strictly ascending, so none stands twice.
    #[verifier::when_used_as_spec(spec_open_ports)]
    pub fn open_ports(&self) -> (ports: &Vec<u16>)
        ensures
            ports == self.spec_open_ports(),
            strictly_ascending(ports@),
    {
        proof {
            use_type_invariant(self);
        }
        &self.open_ports
    }

    /// Seconds from the start of the scan to its end.
    #[verifier::when_used_as_spec(spec_elapsed_secs)]
    pub fn elapsed_secs(&self) -> (secs: u64)
        ensures
            secs == self.spec_elapsed_secs(),
    {
        self.elapsed_secs
    }
}

/// A whole scan as it went: the ports probed, in order; the completion
/// counts at which progress was reported, in order; and the result.
pub struct ScanRun {
    /// Every port that was probed, in probing order.
    pub probed: Vec<u16>,
    /// The counter of completed probes as the scan left it.
    pub completed: usize,
    /// The completion counts at which a progress update was made.
    pub reports: Vec<usize>,
    /// What the scan found.
    pub result: ScanResult,
}

/// Scans a target that accepts connections on the ports in `accepting` and
/// on no others, as one worker would: batch after batch, and within a batch
/// port after port. `ports_to_scan` is the explicit list of ports, or `None`
/// for all of them; `elapsed_secs` is the duration to note in the result.
///
/// Every port of the list is probed once, the counter of completed probes
/// ends at their number, progress is reported at each count at which an
/// update is due, and the result holds the probed ports that accepted.
pub fn scan(ports_to_scan: Option<Vec<u16>>, accepting: &Vec<u16>, elapsed_secs: u64) -> (run:
    ScanRun)
    ensures
        run.probed@ == port_sequence_of(
            match ports_to_scan {
                Some(list) => Some(list@),
                None => None,
            },
        ),
        run.completed == run.probed@.len(),
        run.reports@ == report_points(run.probed@.len()),
        run.result.open_ports()@ == open_ports_of(run.probed@, accepting@.to_set()),
        run.result.elapsed_secs() == elapsed_secs,
{
    let ports = port_sequence(ports_to_scan);
    let batches = partition(&ports);
    let target = PortSet::from_ports(accepting);
    let total: usize = ports.len();
    let mut tally = Tally::new(total);
    let mut probed: Vec<u16> = Vec::new();
    let mut reports: Vec<usize> = Vec::new();
    let mut found: Vec<u16> = Vec::new();
    let ghost cut = batches@;
    for batch in each: batches
        invariant
            each.seq() == cut,
            cut.len() == batches_of(ports@).len(),
            forall|k: int| 0 <= k < cut.len() ==> (#[trigger] cut[k])@ == batches_of(ports@)[k],
            total == ports@.len(),
            target.wf(),
            target@ == accepting@.to_set(),
            probed@ == batches_of(ports@).take(each.index() as int).flatten(),
            tally.total() == total,
            tally.completed() == probed@.len(),
            reports@ == reports_until(probed@.len(), total as nat),
            found@ == hits(probed@, target@),
    {
        let ghost done = probed@;
        let ghost ahead = batch@;
        proof {
            let all = batches_of(ports@);
            assert(all.take(each.index() + 1) =~= all.take(each.index() as int).push(ahead));
            all.take(each.index() as int).lemma_flatten_push(ahead);
            lemma_batches_cover(ports@);
            lemma_leading_batches_fit(all, each.index() + 1);
        }
        let mut work = BatchScan::new(batch);
        loop
            invariant
                work@.valid(),
                work@.ports == ahead,
                target.wf(),
                probed@ == done + ahead.take(work@.probed() as int),
                done.len() + ahead.len() <= total,
                tally.total() == total,
                tally.completed() == probed@.len(),
                reports@ == reports_until(probed@.len(), total as nat),
                found@ + work@.open_ports() == hits(probed@, target@),
            ensures
                work@.valid(),
                work@.probed() == ahead.len(),
                found@ + work@.open_ports() == hits(probed@, target@),
            decreases ahead.len() - work@.probed(),
        {
            let ghost before = work@;
            let ghost probed_before = probed@;
            let port: u16 = match work.next_port() {
                Some(port) => port,
                None => {
                    break ;
                },
            };
            let connected = target.contains(port);
            work.record(connected);
            probed.push(port);
            proof {
                let count = before.probed() as int;
                assert(ahead.take(count + 1) =~= ahead.take(count).push(port));
                assert(ahead.take(count + 1).drop_last() =~= ahead.take(count));
                assert(work@.outcomes.drop_last() =~= before.outcomes);
                assert(probed@.drop_last() =~= probed_before);
                assert(found@ + before.open_ports().push(port) =~= (found@ + before.open_ports()).push(port));
            }
            if tally.record() {
                reports.push(tally.completed());
            }
        }
        proof {
            assert(ahead.take(ahead.len() as int) =~= ahead);
        }
        merge_open_ports(&mut found, work.into_open_ports());
    }
    proof {
        let all = batches_of(ports@);
        assert(all.take(all.len() as int) =~= all);
        lemma_batches_cover(ports@);
        lemma_hits_are_the_accepted(probed@, target@);
    }
    let result = ScanResult::new(&found, elapsed_secs);
    ScanRun { probed, completed: tally.completed(), reports, result }
}

/// Some leading batches, put end to end, are never longer than all of them.
proof fn lemma_leading_batches_fit(batches: Seq<Seq<u16>>, j: int)
    requires
        0 <= j <= batches.len(),
    ensures
        batches.take(j).flatten().len() <= batches.flatten().len(),
    decreases batches.len() - j,
{
    if j < batches.len() {
        lemma_leading_batches_fit(batches, j + 1);
        assert(batches.take(j + 1) =~= batches.take(j).push(batches[j]));
        batches.take(j).lemma_flatten_push(batches[j]);
    } else {
        assert(batches.take(j) =~= batches);
    }
}

/// The open ports of a scan ascend strictly, so that none is reported
/// twice, and they are the ports that were both asked for and accepted on:
/// nothing is reported that was not to be scanned.
pub proof fn lemma_open_ports_sorted_subset(ports: Seq<u16>, accepting: Set<u16>)
    ensures
        strictly_ascending(open_ports_of(ports, accepting)),
        open_ports_of(ports, accepting).no_duplicates(),
        forall|p: u16| #[trigger]
            open_ports_of(ports, accepting).contains(p) <==> (ports.contains(p)
                && accepting.contains(p)),
        open_ports_of(ports, accepting).to_set().subset_of(ports.to_set()),
{
    let both = ports.to_set().intersect(accepting);
    lemma_ascending(both);
    assert forall|p: u16| #[trigger]
        open_ports_of(ports, accepting).contains(p) <==> (ports.contains(p) && accepting.contains(
            p,
        )) by {
        assert(both.contains(p) <==> (ports.to_set().contains(p) && accepting.contains(p)));
    }
}

/// The order in which the ports to scan are given does not matter to the
/// result: two lists of the same ports give the same open ports.
pub proof fn lemma_order_does_not_matter(first: Seq<u16>, second: Seq<u16>, accepting: Set<u16>)
    requires
        first.to_set() == second.to_set(),
    ensures
        open_ports_of(first, accepting) == open_ports_of(second, accepting),
{
}

/// Scanning again gives the same: where the same ports are scanned on a
/// target that accepts on the same ports as before, the open ports reported
/// are the same, whatever the order in which either is listed.
pub proof fn lemma_scan_is_repeatable(
    first: Seq<u16>,
    second: Seq<u16>,
    accepting_first: Seq<u16>,
    accepting_second: Seq<u16>,
)
    requires
        first.to_set() == second.to_set(),
        accepting_first.to_set() == accepting_second.to_set(),
    ensures
        open_ports_of(first, accepting_first.to_set()) == open_ports_of(
            second,
            accepting_second.to_set(),
        ),
{
}

/// In whatever order the findings of the batches were put together, the
/// result is the same: it goes by which ports were found, not by when.
pub proof fn lemma_discovery_order_does_not_matter(
    found: Seq<u16>,
    ports: Seq<u16>,
    accepting: Set<u16>,
)
    requires
        found.to_set() == hits(ports, accepting).to_set(),
    ensures
        ascending(found.to_set()) == open_ports_of(ports, accepting),
{
    lemma_hits_are_the_accepted(ports, accepting);
}

/// Where no port is listed twice, none is found twice: each port is visited
/// once, so the findings hold no repeats even before they are put in order.
pub proof fn lemma_findings_have_no_repeats(ports: Seq<u16>, accepting: Set<u16>)
    requires
        ports.no_duplicates(),
    ensures
        hits(ports, accepting).no_duplicates(),
    decreases ports.len(),
{
    if ports.len() > 0 {
        let earlier = hits(ports.drop_last(), accepting);
        lemma_findings_have_no_repeats(ports.drop_last(), accepting);
        lemma_hits_are_the_accepted(ports.drop_last(), accepting);
        if accepting.contains(ports.last()) {
            assert forall|i: int| 0 <= i < earlier.len() implies earlier[i] != ports.last() by {
                assert(earlier.to_set().contains(earlier[i]));
                assert(ports.drop_last().contains(earlier[i]));
            }
        }
    }
}

/// A probe that has ended stays as it ended: neither the start of the next
/// attempt nor its outcome changes whether an earlier port is open or
/// closed, and the outcome of an attempt under way makes its port open or
/// closed according to whether the connection was made.
pub proof fn lemma_probe_ends_once(state: BatchState, connected: bool, i: int)
    requires
        state.valid(),
        0 <= i < state.ports.len(),
    ensures
        i < state.probed() ==> state.started().state_of(i) == state.state_of(i)
            && state.settled(connected).state_of(i) == state.state_of(i),
        i < state.probed() ==> state.state_of(i) == ProbeState::Open || state.state_of(i)
            == ProbeState::Closed,
        i == state.probed() ==> state.started().state_of(i) == ProbeState::Connecting
            && state.started().settled(connected).state_of(i) == if connected {
            ProbeState::Open
        } else {
            ProbeState::Closed
        },
        i > state.probed() ==> state.started().state_of(i) == ProbeState::Pending
            && state.started().settled(connected).state_of(i) == ProbeState::Pending,
{
}

/// A batch whose probes return what the target does ends with the ports
/// of the batch on which the target accepts, in the order of the batch.
pub proof fn lemma_batch_finds_its_hits(ports: Seq<u16>, accepting: Set<u16>, outcomes: Seq<bool>)
    requires
        outcomes.len() <= ports.len(),
        forall|i: int|
            0 <= i < outcomes.len() ==> #[trigger] outcomes[i] == accepting.contains(ports[i]),
    ensures
        untouched(ports).probed_with(outcomes).valid(),
        untouched(ports).probed_with(outcomes).ports == ports,
        untouched(ports).probed_with(outcomes).outcomes == outcomes,
        untouched(ports).probed_with(outcomes).open_ports() == hits(
            ports.take(outcomes.len() as int),
            accepting,
        ),
    decreases outcomes.len(),
{
    let end = untouched(ports).probed_with(outcomes);
    if outcomes.len() > 0 {
        let earlier = outcomes.drop_last();
        lemma_batch_finds_its_hits(ports, accepting, earlier);
        assert(earlier.push(outcomes.last()) =~= outcomes);
        assert(ports.take(outcomes.len() as int).drop_last() =~= ports.take(earlier.len() as int));
    } else {
        assert(end.outcomes =~= outcomes);
        assert(ports.take(0) =~= Seq::<u16>::empty());
    }
}

/// What the batches find, taken together, is what one pass over all the
/// ports finds: a port is found in some batch exactly when it is found in
/// the whole list. So workers that take the batches in any order, at the
/// same time or not, end with the same findings.
pub proof fn lemma_batches_find_the_same(ports: Seq<u16>, accepting: Set<u16>)
    ensures
        forall|p: u16|
            hits(ports, accepting).contains(p) <==> exists|k: int|
                0 <= k < batches_of(ports).len() && #[trigger] hits(
                    batches_of(ports)[k],
                    accepting,
                ).contains(p),
{
    let batches = batches_of(ports);
    lemma_hits_are_the_accepted(ports, accepting);
    assert forall|p: u16|
        hits(ports, accepting).contains(p) <==> exists|k: int|
            0 <= k < batches.len() && #[trigger] hits(batches[k], accepting).contains(p) by {
        assert(hits(ports, accepting).to_set().contains(p) <==> ports.to_set().contains(p)
            && accepting.contains(p));
        if hits(ports, accepting).contains(p) {
            let i = choose|i: int| 0 <= i < ports.len() && ports[i] == p;
            let k = i / (BATCH_SIZE as int);
            assert(batches[k][i - k * BATCH_SIZE] == p);
            lemma_hits_are_the_accepted(batches[k], accepting);
            assert(batches[k].to_set().contains(p));
            assert(hits(batches[k], accepting).to_set().contains(p));
            assert(hits(batches[k], accepting).contains(p));
        }
        if exists|k: int|
            0 <= k < batches.len() && #[trigger] hits(batches[k], accepting).contains(p) {
            let k = choose|k: int|
                0 <= k < batches.len() && #[trigger] hits(batches[k], accepting).contains(p);
            lemma_hits_are_the_accepted(batches[k], accepting);
            assert(hits(batches[k], accepting).to_set().contains(p));
            assert(batches[k].contains(p));
            let j = choose|j: int| 0 <= j < batches[k].len() && batches[k][j] == p;
            assert(ports[k * BATCH_SIZE + j] == p);
            assert(ports.to_set().contains(p));
        }
    }
}

/// The ports that accepted are those of the probed ports that the target
/// accepts on.
pub proof fn lemma_hits_are_the_accepted(ports: Seq<u16>, accepting: Set<u16>)
    ensures
        hits(ports, accepting).to_set() == ports.to_set().intersect(accepting),
    decreases ports.len(),
{
    let found = hits(ports, accepting);
    if ports.len() == 0 {
        assert(found.to_set() =~= ports.to_set().intersect(accepting));
    } else {
        let earlier = ports.drop_last();
        lemma_hits_are_the_accepted(earlier, accepting);
        assert(ports =~= earlier.push(ports.last()));
        earlier.lemma_push_to_set_commute(ports.last());
        if accepting.contains(ports.last()) {
            hits(earlier, accepting).lemma_push_to_set_commute(ports.last());
        }
        assert(found.to_set() =~= ports.to_set().intersect(accepting));
    }
}

} // verus!
