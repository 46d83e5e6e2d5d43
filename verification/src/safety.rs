//! The safety monitor: runtime monitoring of agent behaviour. It keeps a
//! bounded history of the actions taken and flags tool loops, bursts of
//! actions and read-then-send chains that may exfiltrate data.

use std::collections::VecDeque;
use vstd::prelude::*;
use crate::clock::Timestamp;
use crate::text::{seq_contains, str_contains};

verus! {

/// How many actions the monitor remembers.
pub const MAX_HISTORY: usize = 1000;

/// How many of the latest actions are looked at for a tool loop, and how many
/// calls of one tool among them make a loop.
pub const LOOP_THRESHOLD: usize = 5;

/// How many actions within one minute are too many.
pub const ACTIONS_PER_MINUTE_LIMIT: usize = 30;

/// How many of the latest actions are searched for reads before a send.
pub const EXFILTRATION_LOOKBACK: usize = 5;

/// The length, in seconds, of the window in which actions are counted.
pub const RATE_WINDOW_SECONDS: u64 = 60;

/// A recorded action for analysis.
#[derive(Debug, Clone)]
pub struct ActionRecord {
    pub tool_id: String,
    pub timestamp: Timestamp,
    pub origin: String,
    pub capabilities_used: Vec<String>,
}

/// Types of anomalies the safety monitor can detect.
#[derive(Debug, Clone)]
pub enum Anomaly {
    LoopDetected { tool_id: String, count: usize },
    ExcessiveActions { count: usize, window_seconds: u64 },
    SuspiciousChain { tools: Vec<String>, reason: String },
    PossibleExfiltration { source_capability: String, destination_capability: String },
}

/// An anomaly seen as mathematical values.
pub enum AnomalyView {
    LoopDetected { tool_id: Seq<char>, count: int },
    ExcessiveActions { count: int, window_seconds: int },
    SuspiciousChain { tools: Seq<Seq<char>>, reason: Seq<char> },
    PossibleExfiltration { source_capability: Seq<char>, destination_capability: Seq<char> },
}

impl View for Anomaly {
    type V = AnomalyView;

    open spec fn view(&self) -> AnomalyView {
        match *self {
            Anomaly::LoopDetected { tool_id, count } => AnomalyView::LoopDetected {
                tool_id: tool_id@,
                count: count as int,
            },
            Anomaly::ExcessiveActions { count, window_seconds } => AnomalyView::ExcessiveActions {
                count: count as int,
                window_seconds: window_seconds as int,
            },
            Anomaly::SuspiciousChain { tools, reason } => AnomalyView::SuspiciousChain {
                tools: tools@.map_values(|t: String| t@),
                reason: reason@,
            },
            Anomaly::PossibleExfiltration { source_capability, destination_capability } =>
                AnomalyView::PossibleExfiltration {
                source_capability: source_capability@,
                destination_capability: destination_capability@,
            },
        }
    }
}

/// The views of a list of anomalies.
pub open spec fn anomaly_views(s: Seq<Anomaly>) -> Seq<AnomalyView> {
    s.map_values(|a: Anomaly| a@)
}

/// A capability that sends data out: its label contains `.send` or `network`.
pub open spec fn is_send_capability(c: Seq<char>) -> bool {
    seq_contains(c, ".send"@) || seq_contains(c, "network"@)
}

/// A capability that reads data: its label contains `.read`.
pub open spec fn is_read_capability(c: Seq<char>) -> bool {
    seq_contains(c, ".read"@)
}

/// How many records in `h` are calls of `tool`.
pub open spec fn count_tool(h: Seq<ActionRecord>, tool: Seq<char>) -> nat
    decreases h.len(),
{
    if h.len() == 0 {
        0
    } else {
        count_tool(h.drop_last(), tool) + if h.last().tool_id@ == tool {
            1nat
        } else {
            0nat
        }
    }
}

/// How many records in `h` were taken strictly after `t`.
pub open spec fn count_after(h: Seq<ActionRecord>, t: Timestamp) -> nat
    decreases h.len(),
{
    if h.len() == 0 {
        0
    } else {
        count_after(h.drop_last(), t) + if h.last().timestamp.spec_after(t) {
            1nat
        } else {
            0nat
        }
    }
}

/// The last `k` records of `h` (all of them if there are fewer), oldest first.
pub open spec fn latest(h: Seq<ActionRecord>, k: int) -> Seq<ActionRecord> {
    if h.len() <= k {
        h
    } else {
        h.subrange(h.len() - k, h.len() as int)
    }
}

/// The last `k` records of `h`, newest first.
pub open spec fn latest_newest_first(h: Seq<ActionRecord>, k: int) -> Seq<ActionRecord> {
    let w = latest(h, k);
    Seq::new(w.len(), |j: int| w[w.len() - 1 - j])
}

/// One exfiltration finding for the read capability `read` and each send
/// capability among `caps`, in the order of `caps`.
pub open spec fn exfiltrations_from(read: Seq<char>, caps: Seq<String>) -> Seq<AnomalyView>
    decreases caps.len(),
{
    if caps.len() == 0 {
        Seq::empty()
    } else {
        exfiltrations_from(read, caps.drop_last()) + if is_send_capability(caps.last()@) {
            seq![
                AnomalyView::PossibleExfiltration {
                    source_capability: read,
                    destination_capability: caps.last()@,
                },
            ]
        } else {
            Seq::empty()
        }
    }
}

/// The findings for each read capability among `reads`, in order, against
/// the send capabilities among `sends`.
pub open spec fn exfiltrations_of_reads(reads: Seq<String>, sends: Seq<String>) -> Seq<
    AnomalyView,
>
    decreases reads.len(),
{
    if reads.len() == 0 {
        Seq::empty()
    } else {
        exfiltrations_of_reads(reads.drop_last(), sends) + if is_read_capability(reads.last()@) {
            exfiltrations_from(reads.last()@, sends)
        } else {
            Seq::empty()
        }
    }
}

/// The findings for each record of `recs`, in order, against the send
/// capabilities among `sends`.
pub open spec fn exfiltrations_of_records(recs: Seq<ActionRecord>, sends: Seq<String>) -> Seq<
    AnomalyView,
>
    decreases recs.len(),
{
    if recs.len() == 0 {
        Seq::empty()
    } else {
        exfiltrations_of_records(recs.drop_last(), sends) + exfiltrations_of_reads(
            recs.last().capabilities_used@,
            sends,
        )
    }
}

/// Some capability among `caps` sends data out.
pub open spec fn has_send_capability(caps: Seq<String>) -> bool {
    exists|i: int| 0 <= i < caps.len() && is_send_capability(#[trigger] caps[i]@)
}

/// The instant one minute before `now`.
pub open spec fn one_minute_before(now: Timestamp) -> Timestamp {
    Timestamp { secs: (now.secs - 60) as i64, nanos: now.nanos }
}

/// The anomalies reported when `action` arrives after the history `h`, at `now`:
/// a loop when at least `LOOP_THRESHOLD` of the latest `LOOP_THRESHOLD`
/// actions used the same tool; too many actions when at least
/// `ACTIONS_PER_MINUTE_LIMIT` recorded actions lie within the last minute;
/// and, when the action sends data out, one finding for every pair of a read
/// capability of one of the latest `EXFILTRATION_LOOKBACK` actions (newest
/// first) and a send capability of the action.
pub open spec fn expected_anomalies(h: Seq<ActionRecord>, action: ActionRecord, now: Timestamp) -> Seq<
    AnomalyView,
> {
    let same = count_tool(latest(h, LOOP_THRESHOLD as int), action.tool_id@);
    let recent = count_after(h, one_minute_before(now));
    let loops = if same >= LOOP_THRESHOLD {
        seq![AnomalyView::LoopDetected { tool_id: action.tool_id@, count: same + 1 as int }]
    } else {
        Seq::empty()
    };
    let bursts = if recent >= ACTIONS_PER_MINUTE_LIMIT {
        seq![
            AnomalyView::ExcessiveActions {
                count: recent + 1 as int,
                window_seconds: RATE_WINDOW_SECONDS as int,
            },
        ]
    } else {
        Seq::empty()
    };
    loops + bursts + exfiltrations_of_records(
        latest_newest_first(h, EXFILTRATION_LOOKBACK as int),
        action.capabilities_used@,
    )
}

/// The history after `action` is recorded: appended, and the oldest action
/// dropped once more than `MAX_HISTORY` are held.
pub open spec fn next_history(h: Seq<ActionRecord>, action: ActionRecord) -> Seq<ActionRecord> {
    if h.len() + 1 > MAX_HISTORY {
        h.push(action).drop_first()
    } else {
        h.push(action)
    }
}

/// The safety monitor tracks agent behaviour and flags anomalies.
pub struct SafetyMonitor {
    history: VecDeque<ActionRecord>,
    max_history: usize,
    loop_threshold: usize,
    actions_per_minute_limit: usize,
}

impl SafetyMonitor {
    #[verifier::type_invariant]
    spec fn well_formed(self) -> bool {
        &&& self.max_history == MAX_HISTORY
        &&& self.loop_threshold == LOOP_THRESHOLD
        &&& self.actions_per_minute_limit == ACTIONS_PER_MINUTE_LIMIT
        &&& self.history@.len() <= MAX_HISTORY
    }

    /// The recorded actions, oldest first.
    pub closed spec fn history(self) -> Seq<ActionRecord> {
        self.history@
    }

    pub fn new() -> (monitor: Self)
        ensures
            monitor.history() == Seq::<ActionRecord>::empty(),
    {
        SafetyMonitor {
            history: VecDeque::new(),
            max_history: MAX_HISTORY,
            loop_threshold: LOOP_THRESHOLD,
            actions_per_minute_limit: ACTIONS_PER_MINUTE_LIMIT,
        }
    }

    /// Record an action and check for anomalies, reading the clock for the
    /// one-minute window.
    pub fn record_and_check(&mut self, action: ActionRecord) -> (anomalies: Vec<Anomaly>)
        ensures
            exists|now: Timestamp|
                now.is_clock_reading() && anomaly_views(anomalies@) == expected_anomalies(
                    old(self).history(),
                    action,
                    now,
                ),
            final(self).history() == next_history(old(self).history(), action),
            final(self).history().len() <= MAX_HISTORY,
    {
        let now = Timestamp::now();
        self.record_and_check_at(action, now)
    }

    /// Record an action and check for anomalies, with `now` as the current time.
    pub fn record_and_check_at(&mut self, action: ActionRecord, now: Timestamp) -> (anomalies: Vec<
        Anomaly,
    >)
        requires
            now.secs >= i64::MIN + 60,
        ensures
            anomaly_views(anomalies@) == expected_anomalies(old(self).history(), action, now),
            final(self).history() == next_history(old(self).history(), action),
            final(self).history().len() <= MAX_HISTORY,
    {
        proof {
            use_type_invariant(&*self);
        }
        let mut anomalies: Vec<Anomaly> = Vec::new();
        let same = self.count_latest_same_tool(&action);
        if same >= self.loop_threshold {
            anomalies.push(Anomaly::LoopDetected { tool_id: action.tool_id.clone(), count: same + 1 });
        }
        let one_minute_ago = Timestamp { secs: now.secs - 60, nanos: now.nanos };
        let recent = self.count_recorded_after(&one_minute_ago);
        if recent >= self.actions_per_minute_limit {
            anomalies.push(
                Anomaly::ExcessiveActions { count: recent + 1, window_seconds: RATE_WINDOW_SECONDS },
            );
        }
        proof {
            assert(anomaly_views(anomalies@) =~= {
                let loops = if same >= LOOP_THRESHOLD {
                    seq![AnomalyView::LoopDetected { tool_id: action.tool_id@, count: same + 1 }]
                } else {
                    Seq::empty()
                };
                let bursts = if recent >= ACTIONS_PER_MINUTE_LIMIT {
                    seq![
                        AnomalyView::ExcessiveActions {
                            count: recent + 1,
                            window_seconds: RATE_WINDOW_SECONDS as int,
                        },
                    ]
                } else {
                    Seq::empty()
                };
                loops + bursts
            });
        }
        if any_send_capability(&action.capabilities_used) {
            self.push_exfiltrations(&action, &mut anomalies);
        } else {
            proof {
                lemma_no_sends_no_findings(
                    latest_newest_first(self.history@, EXFILTRATION_LOOKBACK as int),
                    action.capabilities_used@,
                );
                assert(anomaly_views(anomalies@) + Seq::empty() =~= anomaly_views(anomalies@));
            }
        }
        let mut history: VecDeque<ActionRecord> = VecDeque::new();
        std::mem::swap(&mut history, &mut self.history);
        if history.len() >= self.max_history {
            history.pop_front();
        }
        history.push_back(action);
        proof {
            assert(history@ =~= next_history(old(self).history@, action));
        }
        self.history = history;
        anomalies
    }

    /// How many of the latest `LOOP_THRESHOLD` records are calls of the
    /// action's tool.
    fn count_latest_same_tool(&self, action: &ActionRecord) -> (n: usize)
        ensures
            n == count_tool(latest(self.history@, LOOP_THRESHOLD as int), action.tool_id@),
            n <= LOOP_THRESHOLD,
    {
        proof {
            use_type_invariant(self);
        }
        let len = self.history.len();
        let start = if len > self.loop_threshold {
            len - self.loop_threshold
        } else {
            0
        };
        let ghost w = latest(self.history@, LOOP_THRESHOLD as int);
        assert(w =~= self.history@.subrange(start as int, len as int));
        let mut n: usize = 0;
        let mut i: usize = start;
        while i < len
            invariant
                len == self.history@.len(),
                start <= i <= len,
                len - start <= LOOP_THRESHOLD,
                w == self.history@.subrange(start as int, len as int),
                n == count_tool(w.subrange(0, i - start), action.tool_id@),
                n <= i - start,
            decreases len - i,
        {
            assert(w.subrange(0, i + 1 - start).drop_last() =~= w.subrange(0, i - start));
            if str_eq_string(&self.history[i].tool_id, &action.tool_id) {
                n = n + 1;
            }
            i = i + 1;
        }
        assert(w.subrange(0, len - start) =~= w);
        n
    }

    /// How many records were taken strictly after `t`.
    fn count_recorded_after(&self, t: &Timestamp) -> (n: usize)
        ensures
            n == count_after(self.history@, *t),
            n <= self.history@.len(),
    {
        let len = self.history.len();
        let mut n: usize = 0;
        let mut i: usize = 0;
        while i < len
            invariant
                len == self.history@.len(),
                i <= len,
                n == count_after(self.history@.subrange(0, i as int), *t),
                n <= i,
            decreases len - i,
        {
            assert(self.history@.subrange(0, i + 1).drop_last() =~= self.history@.subrange(
                0,
                i as int,
            ));
            if self.history[i].timestamp.is_after(t) {
                n = n + 1;
            }
            i = i + 1;
        }
        assert(self.history@.subrange(0, len as int) =~= self.history@);
        n
    }

    /// Appends the exfiltration findings for `action` to `out`.
    fn push_exfiltrations(&self, action: &ActionRecord, out: &mut Vec<Anomaly>)
        ensures
            anomaly_views(final(out)@) == anomaly_views(old(out)@) + exfiltrations_of_records(
                latest_newest_first(self.history@, EXFILTRATION_LOOKBACK as int),
                action.capabilities_used@,
            ),
    {
        let len = self.history.len();
        let k = if len < EXFILTRATION_LOOKBACK {
            len
        } else {
            EXFILTRATION_LOOKBACK
        };
        let ghost recs = latest_newest_first(self.history@, EXFILTRATION_LOOKBACK as int);
        assert(recs.len() == k);
        let ghost base = anomaly_views(out@);
        let mut j: usize = 0;
        while j < k
            invariant
                len == self.history@.len(),
                k <= len,
                recs == latest_newest_first(self.history@, EXFILTRATION_LOOKBACK as int),
                recs.len() == k,
                j <= k,
                anomaly_views(out@) == base + exfiltrations_of_records(
                    recs.subrange(0, j as int),
                    action.capabilities_used@,
                ),
            decreases k - j,
        {
            let rec = &self.history[len - 1 - j];
            assert(*rec == recs[j as int]);
            assert(recs.subrange(0, j + 1).drop_last() =~= recs.subrange(0, j as int));
            push_findings_of_reads(&rec.capabilities_used, &action.capabilities_used, out);
            proof {
                let a = base;
                let b = exfiltrations_of_records(recs.subrange(0, j as int), action.capabilities_used@);
                let c = exfiltrations_of_reads(rec.capabilities_used@, action.capabilities_used@);
                assert((a + b) + c =~= a + (b + c));
            }
            j = j + 1;
        }
        assert(recs.subrange(0, k as int) =~= recs);
    }

    /// Trigger the emergency stop: forget every recorded action.
    pub fn kill_switch(&mut self) -> (stopped: bool)
        ensures
            stopped,
            final(self).history() == Seq::<ActionRecord>::empty(),
    {
        proof {
            use_type_invariant(&*self);
        }
        self.history = VecDeque::new();
        true
    }
}

impl Default for SafetyMonitor {
    fn default() -> (monitor: Self)
        ensures
            monitor.history() == Seq::<ActionRecord>::empty(),
    {
        Self::new()
    }
}

/// Whether two strings hold the same characters.
fn str_eq_string(a: &String, b: &String) -> (r: bool)
    ensures
        r == (a@ == b@),
{
    a.eq(b)
}

/// Whether a capability label sends data out.
fn is_send(c: &String) -> (r: bool)
    ensures
        r == is_send_capability(c@),
{
    str_contains(c.as_str(), ".send") || str_contains(c.as_str(), "network")
}

/// Whether a capability label reads data.
fn is_read(c: &String) -> (r: bool)
    ensures
        r == is_read_capability(c@),
{
    str_contains(c.as_str(), ".read")
}

/// Whether some capability sends data out.
fn any_send_capability(caps: &Vec<String>) -> (r: bool)
    ensures
        r == has_send_capability(caps@),
{
    let mut i: usize = 0;
    while i < caps.len()
        invariant
            i <= caps.len(),
            forall|j: int| 0 <= j < i ==> !is_send_capability(#[trigger] caps@[j]@),
        decreases caps.len() - i,
    {
        if is_send(&caps[i]) {
            return true;
        }
        i = i + 1;
    }
    false
}

/// Appends one finding for `read` and each send capability of `sends`.
fn push_findings_for_read(read: &String, sends: &Vec<String>, out: &mut Vec<Anomaly>)
    ensures
        anomaly_views(final(out)@) == anomaly_views(old(out)@) + exfiltrations_from(read@, sends@),
{
    let ghost base = anomaly_views(out@);
    let mut i: usize = 0;
    while i < sends.len()
        invariant
            i <= sends.len(),
            anomaly_views(out@) == base + exfiltrations_from(read@, sends@.subrange(0, i as int)),
        decreases sends.len() - i,
    {
        assert(sends@.subrange(0, i + 1).drop_last() =~= sends@.subrange(0, i as int));
        let ghost before = out@;
        if is_send(&sends[i]) {
            out.push(
                Anomaly::PossibleExfiltration {
                    source_capability: read.clone(),
                    destination_capability: sends[i].clone(),
                },
            );
            assert(anomaly_views(out@) =~= anomaly_views(before).push(out@.last()@));
        } else {
            assert(anomaly_views(out@) =~= anomaly_views(before));
        }
        i = i + 1;
        assert(anomaly_views(out@) =~= base + exfiltrations_from(
            read@,
            sends@.subrange(0, i as int),
        ));
    }
    assert(sends@.subrange(0, sends@.len() as int) =~= sends@);
}

/// Appends the findings for each read capability of `reads`.
fn push_findings_of_reads(reads: &Vec<String>, sends: &Vec<String>, out: &mut Vec<Anomaly>)
    ensures
        anomaly_views(final(out)@) == anomaly_views(old(out)@) + exfiltrations_of_reads(
            reads@,
            sends@,
        ),
{
    let ghost base = anomaly_views(out@);
    let mut i: usize = 0;
    while i < reads.len()
        invariant
            i <= reads.len(),
            anomaly_views(out@) == base + exfiltrations_of_reads(
                reads@.subrange(0, i as int),
                sends@,
            ),
        decreases reads.len() - i,
    {
        assert(reads@.subrange(0, i + 1).drop_last() =~= reads@.subrange(0, i as int));
        let ghost before = anomaly_views(out@);
        if is_read(&reads[i]) {
            push_findings_for_read(&reads[i], sends, out);
        }
        i = i + 1;
        proof {
            let b = exfiltrations_of_reads(reads@.subrange(0, i - 1), sends@);
            let c = if is_read_capability(reads@[i - 1]@) {
                exfiltrations_from(reads@[i - 1]@, sends@)
            } else {
                Seq::empty()
            };
            assert((base + b) + c =~= base + (b + c));
        }
    }
    assert(reads@.subrange(0, reads@.len() as int) =~= reads@);
}

/// Without a send capability there is no exfiltration finding.
proof fn lemma_no_sends_no_findings(recs: Seq<ActionRecord>, sends: Seq<String>)
    requires
        !has_send_capability(sends),
    ensures
        exfiltrations_of_records(recs, sends) == Seq::<AnomalyView>::empty(),
    decreases recs.len(),
{
    if recs.len() > 0 {
        lemma_no_sends_no_findings(recs.drop_last(), sends);
        lemma_no_sends_no_findings_reads(recs.last().capabilities_used@, sends);
        assert(exfiltrations_of_records(recs, sends) =~= Seq::<AnomalyView>::empty());
    }
}

proof fn lemma_no_sends_no_findings_reads(reads: Seq<String>, sends: Seq<String>)
    requires
        !has_send_capability(sends),
    ensures
        exfiltrations_of_reads(reads, sends) == Seq::<AnomalyView>::empty(),
    decreases reads.len(),
{
    if reads.len() > 0 {
        lemma_no_sends_no_findings_reads(reads.drop_last(), sends);
        lemma_no_sends_no_findings_from(reads.last()@, sends);
        assert(exfiltrations_of_reads(reads, sends) =~= Seq::<AnomalyView>::empty());
    }
}

proof fn lemma_no_sends_no_findings_from(read: Seq<char>, sends: Seq<String>)
    requires
        !has_send_capability(sends),
    ensures
        exfiltrations_from(read, sends) == Seq::<AnomalyView>::empty(),
    decreases sends.len(),
{
    if sends.len() > 0 {
        assert(!is_send_capability(sends[sends.len() - 1]@));
        assert(!has_send_capability(sends.drop_last())) by {
            assert forall|i: int| 0 <= i < sends.drop_last().len() implies !is_send_capability(
                #[trigger] sends.drop_last()[i]@,
            ) by {
                assert(sends.drop_last()[i] == sends[i]);
            }
        }
        lemma_no_sends_no_findings_from(read, sends.drop_last());
        assert(exfiltrations_from(read, sends) =~= Seq::<AnomalyView>::empty());
    }
}

} // verus!

verus! {

proof fn lemma_count_tool_all(s: Seq<ActionRecord>, tool: Seq<char>)
    requires
        forall|i: int| 0 <= i < s.len() ==> (#[trigger] s[i]).tool_id@ == tool,
    ensures
        count_tool(s, tool) == s.len(),
    decreases s.len(),
{
    if s.len() > 0 {
        assert forall|i: int| 0 <= i < s.drop_last().len() implies (#[trigger] s.drop_last()[i]).tool_id@
            == tool by {
            assert(s.drop_last()[i] == s[i]);
        }
        lemma_count_tool_all(s.drop_last(), tool);
    }
}

proof fn lemma_count_tool_none(s: Seq<ActionRecord>, tool: Seq<char>)
    requires
        forall|i: int| 0 <= i < s.len() ==> (#[trigger] s[i]).tool_id@ != tool,
    ensures
        count_tool(s, tool) == 0,
    decreases s.len(),
{
    if s.len() > 0 {
        assert forall|i: int| 0 <= i < s.drop_last().len() implies (#[trigger] s.drop_last()[i]).tool_id@
            != tool by {
            assert(s.drop_last()[i] == s[i]);
        }
        lemma_count_tool_none(s.drop_last(), tool);
    }
}

/// A tool loop is caught: when each of the latest `LOOP_THRESHOLD` recorded
/// actions called the same tool, calling it once more is reported first, as a
/// loop of `LOOP_THRESHOLD + 1` calls.
pub proof fn law_repeated_tool_is_a_loop(h: Seq<ActionRecord>, action: ActionRecord, now: Timestamp)
    requires
        h.len() >= LOOP_THRESHOLD,
        forall|i: int|
            h.len() - LOOP_THRESHOLD <= i < h.len() ==> (#[trigger] h[i]).tool_id@
                == action.tool_id@,
    ensures
        expected_anomalies(h, action, now).len() >= 1,
        expected_anomalies(h, action, now)[0] == (AnomalyView::LoopDetected {
            tool_id: action.tool_id@,
            count: LOOP_THRESHOLD + 1,
        }),
{
    let w = latest(h, LOOP_THRESHOLD as int);
    assert forall|i: int| 0 <= i < w.len() implies (#[trigger] w[i]).tool_id@ == action.tool_id@ by {
        if h.len() > LOOP_THRESHOLD {
            assert(w[i] == h[h.len() - LOOP_THRESHOLD + i]);
        } else {
            assert(w[i] == h[i]);
        }
    }
    lemma_count_tool_all(w, action.tool_id@);
}

/// No false positives: an action of a tool that none of the latest
/// `LOOP_THRESHOLD` actions used, arriving when fewer than
/// `ACTIONS_PER_MINUTE_LIMIT` actions lie in the last minute and sending
/// nothing out, raises no anomaly.
pub proof fn law_quiet_action_raises_nothing(
    h: Seq<ActionRecord>,
    action: ActionRecord,
    now: Timestamp,
)
    requires
        forall|i: int|
            0 <= i < latest(h, LOOP_THRESHOLD as int).len() ==> (#[trigger] latest(
                h,
                LOOP_THRESHOLD as int,
            )[i]).tool_id@ != action.tool_id@,
        count_after(h, one_minute_before(now)) < ACTIONS_PER_MINUTE_LIMIT,
        !has_send_capability(action.capabilities_used@),
    ensures
        expected_anomalies(h, action, now) == Seq::<AnomalyView>::empty(),
{
    lemma_count_tool_none(latest(h, LOOP_THRESHOLD as int), action.tool_id@);
    lemma_no_sends_no_findings(
        latest_newest_first(h, EXFILTRATION_LOOKBACK as int),
        action.capabilities_used@,
    );
    assert(expected_anomalies(h, action, now) =~= Seq::<AnomalyView>::empty());
}

proof fn lemma_finding_from(read: Seq<char>, sends: Seq<String>, b: int)
    requires
        0 <= b < sends.len(),
        is_send_capability(sends[b]@),
    ensures
        exfiltrations_from(read, sends).contains(
            AnomalyView::PossibleExfiltration {
                source_capability: read,
                destination_capability: sends[b]@,
            },
        ),
    decreases sends.len(),
{
    let x = AnomalyView::PossibleExfiltration {
        source_capability: read,
        destination_capability: sends[b]@,
    };
    let all = exfiltrations_from(read, sends);
    let prefix = exfiltrations_from(read, sends.drop_last());
    if b == sends.len() - 1 {
        assert(all[prefix.len() as int] == x);
    } else {
        assert(sends.drop_last()[b] == sends[b]);
        lemma_finding_from(read, sends.drop_last(), b);
        let k = choose|k: int| 0 <= k < prefix.len() && prefix[k] == x;
        assert(all[k] == x);
    }
}

proof fn lemma_finding_of_reads(reads: Seq<String>, sends: Seq<String>, a: int, x: AnomalyView)
    requires
        0 <= a < reads.len(),
        is_read_capability(reads[a]@),
        exfiltrations_from(reads[a]@, sends).contains(x),
    ensures
        exfiltrations_of_reads(reads, sends).contains(x),
    decreases reads.len(),
{
    let all = exfiltrations_of_reads(reads, sends);
    let prefix = exfiltrations_of_reads(reads.drop_last(), sends);
    if a == reads.len() - 1 {
        let last = exfiltrations_from(reads[a]@, sends);
        let k = choose|k: int| 0 <= k < last.len() && last[k] == x;
        assert(all[prefix.len() + k] == x);
    } else {
        assert(reads.drop_last()[a] == reads[a]);
        lemma_finding_of_reads(reads.drop_last(), sends, a, x);
        let k = choose|k: int| 0 <= k < prefix.len() && prefix[k] == x;
        assert(all[k] == x);
    }
}

proof fn lemma_finding_of_records(recs: Seq<ActionRecord>, sends: Seq<String>, j: int, x: AnomalyView)
    requires
        0 <= j < recs.len(),
        exfiltrations_of_reads(recs[j].capabilities_used@, sends).contains(x),
    ensures
        exfiltrations_of_records(recs, sends).contains(x),
    decreases recs.len(),
{
    let all = exfiltrations_of_records(recs, sends);
    let prefix = exfiltrations_of_records(recs.drop_last(), sends);
    if j == recs.len() - 1 {
        let last = exfiltrations_of_reads(recs[j].capabilities_used@, sends);
        let k = choose|k: int| 0 <= k < last.len() && last[k] == x;
        assert(all[prefix.len() + k] == x);
    } else {
        assert(recs.drop_last()[j] == recs[j]);
        lemma_finding_of_records(recs.drop_last(), sends, j, x);
        let k = choose|k: int| 0 <= k < prefix.len() && prefix[k] == x;
        assert(all[k] == x);
    }
}

/// A read followed by a send is flagged: when one of the latest
/// `EXFILTRATION_LOOKBACK` recorded actions used a read capability and the new
/// action uses a send capability, that pair is reported as a possible
/// exfiltration.
pub proof fn law_read_then_send_is_flagged(
    h: Seq<ActionRecord>,
    action: ActionRecord,
    now: Timestamp,
    j: int,
    a: int,
    b: int,
)
    requires
        h.len() - EXFILTRATION_LOOKBACK <= j < h.len(),
        0 <= j,
        0 <= a < h[j].capabilities_used@.len(),
        is_read_capability(h[j].capabilities_used@[a]@),
        0 <= b < action.capabilities_used@.len(),
        is_send_capability(action.capabilities_used@[b]@),
    ensures
        expected_anomalies(h, action, now).contains(
            AnomalyView::PossibleExfiltration {
                source_capability: h[j].capabilities_used@[a]@,
                destination_capability: action.capabilities_used@[b]@,
            },
        ),
{
    let sends = action.capabilities_used@;
    let reads = h[j].capabilities_used@;
    let x = AnomalyView::PossibleExfiltration {
        source_capability: reads[a]@,
        destination_capability: sends[b]@,
    };
    let recs = latest_newest_first(h, EXFILTRATION_LOOKBACK as int);
    let w = latest(h, EXFILTRATION_LOOKBACK as int);
    let pos = h.len() - 1 - j;
    if h.len() > EXFILTRATION_LOOKBACK {
        assert(w[w.len() - 1 - pos] == h[j]);
    } else {
        assert(w[w.len() - 1 - pos] == h[j]);
    }
    assert(recs[pos] == h[j]);
    lemma_finding_from(reads[a]@, sends, b);
    lemma_finding_of_reads(reads, sends, a, x);
    lemma_finding_of_records(recs, sends, pos, x);
    let all = expected_anomalies(h, action, now);
    let tail = exfiltrations_of_records(recs, sends);
    let k = choose|k: int| 0 <= k < tail.len() && tail[k] == x;
    assert(all[all.len() - tail.len() + k] == x);
}

/// After the kill switch the history is empty, so the next action raises no
/// loop, no burst and no exfiltration finding.
pub proof fn law_fresh_history_raises_nothing(action: ActionRecord, now: Timestamp)
    ensures
        expected_anomalies(Seq::empty(), action, now) == Seq::<AnomalyView>::empty(),
{
    let e = Seq::<ActionRecord>::empty();
    assert(latest_newest_first(e, EXFILTRATION_LOOKBACK as int) =~= e);
    assert(expected_anomalies(e, action, now) =~= Seq::<AnomalyView>::empty());
}

/// The history keeps the latest actions in the order they arrived: the new
/// action comes last, at most `MAX_HISTORY` actions are kept, and what is kept
/// is the end of the old history followed by the new action.
pub proof fn law_history_keeps_latest(h: Seq<ActionRecord>, action: ActionRecord)
    requires
        h.len() <= MAX_HISTORY,
    ensures
        next_history(h, action).len() == if h.len() < MAX_HISTORY {
            h.len() + 1
        } else {
            MAX_HISTORY as nat
        },
        next_history(h, action).last() == action,
        next_history(h, action) == h.push(action).subrange(
            h.len() + 1 - next_history(h, action).len(),
            h.len() + 1 as int,
        ),
{
    assert(h.push(action).drop_first() =~= h.push(action).subrange(1, h.len() + 1 as int));
    assert(h.push(action) =~= h.push(action).subrange(0, h.len() + 1 as int));
}

} // verus!
