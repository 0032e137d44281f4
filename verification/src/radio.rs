//! The decisions of the radio loop: when node-info beacons and automatic
//! test messages are due on the sample clock, how much received signal is
//! kept, and what the message log and the neighbour list show.
use vstd::prelude::*;
use vstd::string::StringExecFns;
use std::collections::VecDeque;
use crate::mesh::node::NodeInfo;
use crate::mac::packet::MeshFrame;
use crate::model::{DEFAULT_INTERVAL_MS, Command, LogEntry, RadioState, RadioView, SR_HZ, SimMode, after_commands, apply_commands, command_applied};
use crate::app::{MeshMessage, ProcessError};
use crate::proto::{Data, DataView, data_text};
use crate::text::{decimal, hex8, push_decimal, push_hex8, push_signed_decimal, signed_decimal};

verus! {

/// Samples between node-info beacons (five seconds).
pub const BEACON_INTERVAL: u64 = 5_000_000;

/// Entries the message log keeps.
pub const MAX_LOG: usize = 200;

/// Received samples kept before the oldest are dropped.
pub const MAX_RX_BUF: usize = 4_000_000;

/// Samples in an interval of `interval_ms` milliseconds.
pub open spec fn interval_samples(interval_ms: u64) -> int {
    interval_ms * SR_HZ / 1000
}

/// When, on the count of samples produced, the next beacon and the next
/// automatic message are due.
pub struct LoopSchedule {
    /// Samples produced since the driver was (re)built.
    pub produced: u64,
    pub next_tx_at: u64,
    pub next_beacon_at: u64,
    /// The automatic-message interval last seen, in milliseconds.
    pub prev_interval_ms: u64,
    /// Number of the last automatic message.
    pub seq: u32,
}

impl LoopSchedule {
    /// The schedule of a new loop: first message after one second of
    /// samples, first beacon after half a second.
    pub fn new() -> (s: Self)
        ensures
            s.produced == 0,
            s.next_tx_at == SR_HZ,
            s.next_beacon_at == SR_HZ / 2,
            s.prev_interval_ms == DEFAULT_INTERVAL_MS,
            s.seq == 0,
    {
        LoopSchedule {
            produced: 0,
            next_tx_at: SR_HZ,
            next_beacon_at: SR_HZ / 2,
            prev_interval_ms: DEFAULT_INTERVAL_MS,
            seq: 0,
        }
    }

    /// Start the sample clock over, as after the driver is rebuilt.
    pub fn restart(&mut self)
        ensures
            final(self).produced == 0,
            final(self).next_tx_at == SR_HZ,
            final(self).next_beacon_at == SR_HZ / 2,
            final(self).prev_interval_ms == old(self).prev_interval_ms,
            final(self).seq == old(self).seq,
    {
        self.produced = 0;
        self.next_tx_at = SR_HZ;
        self.next_beacon_at = SR_HZ / 2;
    }

    /// Take a new automatic-message interval: when it changed, the next
    /// message is brought forward to at most one new interval from now.
    pub fn set_interval(&mut self, interval_ms: u64)
        requires
            old(self).produced + interval_samples(interval_ms) <= u64::MAX,
        ensures
            final(self).produced == old(self).produced,
            final(self).next_beacon_at == old(self).next_beacon_at,
            final(self).seq == old(self).seq,
            final(self).prev_interval_ms == interval_ms,
            interval_ms == old(self).prev_interval_ms ==> final(self).next_tx_at == old(self).next_tx_at,
            interval_ms != old(self).prev_interval_ms ==> {
                let earliest = old(self).produced + interval_samples(interval_ms);
                final(self).next_tx_at == if old(self).next_tx_at > earliest {
                    earliest
                } else {
                    old(self).next_tx_at as int
                }
            },
    {
        if interval_ms != self.prev_interval_ms {
            self.prev_interval_ms = interval_ms;
            let earliest = self.produced + interval_ms * 1000;
            if self.next_tx_at > earliest {
                self.next_tx_at = earliest;
            }
        }
    }

    /// Whether a beacon is due; when it is, the next one is scheduled one
    /// beacon interval later.
    pub fn beacon_due(&mut self) -> (due: bool)
        requires
            old(self).produced + BEACON_INTERVAL <= u64::MAX,
        ensures
            due == (old(self).produced >= old(self).next_beacon_at),
            due ==> final(self).next_beacon_at == old(self).produced + BEACON_INTERVAL,
            !due ==> final(self).next_beacon_at == old(self).next_beacon_at,
            final(self).produced == old(self).produced,
            final(self).next_tx_at == old(self).next_tx_at,
            final(self).prev_interval_ms == old(self).prev_interval_ms,
            final(self).seq == old(self).seq,
    {
        if self.produced >= self.next_beacon_at {
            self.next_beacon_at = self.produced + BEACON_INTERVAL;
            true
        } else {
            false
        }
    }

    /// The number of the automatic message due now, if any: one is due when
    /// transmitting is allowed, automatic messages are on and the schedule
    /// has come; the next is then scheduled one interval later.
    pub fn auto_tx_due(&mut self, tx_allowed: bool, auto_tx: bool, interval_ms: u64) -> (r: Option<u32>)
        requires
            old(self).produced + interval_samples(interval_ms) <= u64::MAX,
            tx_allowed && auto_tx && old(self).produced >= old(self).next_tx_at ==> old(self).seq < u32::MAX,
        ensures
            final(self).produced == old(self).produced,
            final(self).next_beacon_at == old(self).next_beacon_at,
            final(self).prev_interval_ms == old(self).prev_interval_ms,
            if tx_allowed && auto_tx && old(self).produced >= old(self).next_tx_at {
                &&& final(self).seq == old(self).seq + 1
                &&& final(self).next_tx_at == old(self).produced + interval_samples(interval_ms)
                &&& r == Some(final(self).seq)
            } else {
                &&& final(self).seq == old(self).seq
                &&& final(self).next_tx_at == old(self).next_tx_at
                &&& r is None
            },
    {
        if tx_allowed && auto_tx && self.produced >= self.next_tx_at {
            self.next_tx_at = self.produced + interval_ms * 1000;
            self.seq = self.seq + 1;
            Some(self.seq)
        } else {
            None
        }
    }

    /// Count `n` more samples produced.
    pub fn advance(&mut self, n: u64)
        requires
            old(self).produced + n <= u64::MAX,
        ensures
            final(self).produced == old(self).produced + n,
            final(self).next_tx_at == old(self).next_tx_at,
            final(self).next_beacon_at == old(self).next_beacon_at,
            final(self).prev_interval_ms == old(self).prev_interval_ms,
            final(self).seq == old(self).seq,
    {
        self.produced = self.produced + n;
    }
}

/// Whether the node may transmit in `mode`.
pub fn tx_allowed(mode: SimMode) -> (ok: bool)
    ensures
        ok == (mode != SimMode::Listen),
{
    match mode {
        SimMode::Terminal => true,
        SimMode::Listen => false,
    }
}

/// The log line for a change of mode.
pub fn mode_log_text(mode: SimMode) -> (s: String)
    ensures
        mode == SimMode::Terminal ==> s@ == "Mode → Terminal"@,
        mode == SimMode::Listen ==> s@ == "Mode → Listen (RX only)"@,
{
    match mode {
        SimMode::Terminal => "Mode → Terminal".to_owned(),
        SimMode::Listen => "Mode → Listen (RX only)".to_owned(),
    }
}

/// The text of automatic message number `seq`: `Test #` and the number.
pub fn auto_tx_text(seq: u32) -> (s: String)
    ensures
        s@ == "Test #"@ + decimal(seq as nat),
{
    let mut s = "Test #".to_owned();
    push_decimal(&mut s, seq as u64);
    s
}

/// `text` in double quotes.
pub open spec fn quoted(text: Seq<char>) -> Seq<char> {
    seq!['"'] + text + seq!['"']
}

fn push_quoted(s: &mut String, text: &str)
    ensures
        final(s)@ == old(s)@ + quoted(text@),
{
    proof {
        reveal_strlit("\"");
    }
    s.append("\"");
    s.append(text);
    s.append("\"");
    assert(final(s)@ =~= old(s)@ + quoted(text@));
}

/// The log text of a transmitted message: the text in double quotes.
pub fn tx_log_text(text: &str) -> (s: String)
    ensures
        s@ == quoted(text@),
{
    let mut s = String::new();
    push_quoted(&mut s, text);
    s
}

/// How a received body is shown: its text in double quotes for a text
/// message, else its port number and payload length.
pub open spec fn rx_label_text(d: DataView) -> Seq<char> {
    match data_text(d) {
        Some(t) => quoted(t),
        None => "portnum="@ + signed_decimal(d.portnum as int) + " len="@ + decimal(d.payload.len()),
    }
}

/// Appends how a received body is shown.
pub fn push_rx_label(s: &mut String, data: &Data)
    ensures
        final(s)@ == old(s)@ + rx_label_text(data@),
{
    match data.text() {
        Some(t) => push_quoted(s, t),
        None => {
            s.append("portnum=");
            push_signed_decimal(s, data.portnum as i64);
            s.append(" len=");
            push_decimal(s, data.payload.len() as u64);
            assert(final(s)@ =~= old(s)@ + rx_label_text(data@));
        },
    }
}

/// How a neighbour is listed: its short name and, in brackets, its node-id
/// text.
pub fn neighbour_label(n: &NodeInfo) -> (s: String)
    ensures
        s@ == n.short_name@ + " (!"@ + hex8(n.node_id) + ")"@,
{
    let mut s = n.short_name.clone();
    s.append(" (!");
    push_hex8(&mut s, n.node_id);
    s.append(")");
    s
}

/// The log after appending `e`: the oldest entry is dropped once there are
/// more than `MAX_LOG`.
pub fn push_log(log: &mut VecDeque<LogEntry>, e: LogEntry)
    ensures
        old(log)@.len() < MAX_LOG ==> final(log)@ == old(log)@.push(e),
        old(log)@.len() >= MAX_LOG ==> final(log)@ == old(log)@.push(e).drop_first(),
        old(log)@.len() <= MAX_LOG ==> final(log)@.len() <= MAX_LOG,
{
    log.push_back(e);
    if log.len() > MAX_LOG {
        log.pop_front();
        proof {
            assert(final(log)@ =~= old(log)@.push(e).drop_first());
        }
    }
}

/// How many of the oldest received samples to drop from a buffer of `len`:
/// none while it holds at most `MAX_RX_BUF`, else all but the newest half of
/// that.
pub fn rx_drain_len(len: usize) -> (n: usize)
    ensures
        len <= MAX_RX_BUF ==> n == 0,
        len > MAX_RX_BUF ==> n == len - MAX_RX_BUF / 2,
{
    if len > MAX_RX_BUF {
        len - MAX_RX_BUF / 2
    } else {
        0
    }
}

/// The schedule `s` started over when `rebuild` is set.
pub open spec fn restarted(s: LoopSchedule, rebuild: bool) -> LoopSchedule {
    if rebuild {
        LoopSchedule { produced: 0, next_tx_at: SR_HZ, next_beacon_at: SR_HZ / 2, ..s }
    } else {
        s
    }
}

/// The schedule `s` after taking the interval `interval_ms`, as
/// [`LoopSchedule::set_interval`] does.
pub open spec fn with_interval(s: LoopSchedule, interval_ms: u64) -> LoopSchedule {
    if interval_ms != s.prev_interval_ms {
        let earliest = s.produced + interval_samples(interval_ms);
        LoopSchedule {
            prev_interval_ms: interval_ms,
            next_tx_at: if s.next_tx_at > earliest { earliest as u64 } else { s.next_tx_at },
            ..s
        }
    } else {
        s
    }
}

/// The schedule of a running tick once the driver rebuild and the interval
/// of `st` are taken.
pub open spec fn tick_schedule(s: LoopSchedule, st: crate::model::RadioView) -> LoopSchedule {
    with_interval(restarted(s, st.rebuild_driver), st.interval_ms)
}

/// A running tick with state `st` on schedule `s` sends an automatic
/// message: Terminal mode, automatic sending on, and its time reached.
pub open spec fn auto_message_due(s: LoopSchedule, st: crate::model::RadioView) -> bool {
    let s1 = tick_schedule(s, st);
    st.mode != SimMode::Listen && st.auto_tx && s1.produced >= s1.next_tx_at
}

/// The log text for a change to `mode`.
pub open spec fn mode_text(mode: SimMode) -> Seq<char> {
    match mode {
        SimMode::Terminal => "Mode → Terminal"@,
        SimMode::Listen => "Mode → Listen (RX only)"@,
    }
}

/// What one tick of the radio loop must do besides running the PHY.
pub struct TickPlan {
    /// Rebuild the node from the current identity, logging this line.
    pub rebuild_nodes: Option<String>,
    /// Rebuild the driver.
    pub rebuild_driver: bool,
    /// Transmit a node-info beacon.
    pub beacon: bool,
    /// Refresh the listed neighbours.
    pub refresh_neighbours: bool,
    /// Queued texts to transmit, oldest first.
    pub texts: Vec<String>,
    /// Text of the automatic message to transmit.
    pub auto_text: Option<String>,
}

/// A tick from state `st` on schedule `s` stays within the machine's
/// counters: the sample clock cannot overflow, and neither can the number
/// of an automatic message that is due.
pub open spec fn tick_in_range(st: crate::model::RadioView, s: LoopSchedule) -> bool {
    &&& st.running ==> s.produced + BEACON_INTERVAL <= u64::MAX
    &&& st.running ==> s.produced + interval_samples(st.interval_ms) <= u64::MAX
    &&& st.running && auto_message_due(s, st) ==> s.seq < u32::MAX
}

/// `plan` is the plan of one tick that takes the state from `st0` to `st1`
/// and the schedule from `s0` to `s1`.  A paused loop does nothing and
/// changes nothing.  Otherwise the rebuild requests are taken (a driver
/// rebuild restarts the sample clock), the interval is taken, and then: in
/// Listen mode nothing is transmitted (no beacon, no queued text, no
/// automatic message) and the queue is emptied; in Terminal mode the beacon
/// and the automatic message go out when due, and every queued text is
/// handed out.
pub open spec fn tick_planned(
    st0: crate::model::RadioView,
    s0: LoopSchedule,
    st1: crate::model::RadioView,
    s1: LoopSchedule,
    plan: TickPlan,
) -> bool {
    if !st0.running {
        &&& st1 == st0
        &&& s1 == s0
        &&& plan.rebuild_nodes is None
        &&& !plan.rebuild_driver
        &&& !plan.beacon
        &&& !plan.refresh_neighbours
        &&& plan.texts@.len() == 0
        &&& plan.auto_text is None
    } else {
        let sc = tick_schedule(s0, st0);
        let allowed = st0.mode != SimMode::Listen;
        let beacon_due = sc.produced >= sc.next_beacon_at;
        let auto_due = auto_message_due(s0, st0);
        &&& st1 == crate::model::RadioView { rebuild_nodes: false, rebuild_driver: false, tx_queue: Seq::empty(), ..st0 }
        &&& (plan.rebuild_nodes is Some) == st0.rebuild_nodes
        &&& (plan.rebuild_nodes matches Some(t) ==> t@ == mode_text(st0.mode))
        &&& plan.rebuild_driver == st0.rebuild_driver
        &&& plan.refresh_neighbours == beacon_due
        &&& plan.beacon == (allowed && beacon_due)
        &&& allowed ==> plan.texts@.map_values(|t: String| t@) == st0.tx_queue
        &&& !allowed ==> plan.texts@.len() == 0
        &&& s1.produced == sc.produced
        &&& s1.prev_interval_ms == sc.prev_interval_ms
        &&& s1.next_beacon_at == if beacon_due {
            (sc.produced + BEACON_INTERVAL) as u64
        } else {
            sc.next_beacon_at
        }
        &&& auto_due ==> {
            &&& s1.seq == sc.seq + 1
            &&& s1.next_tx_at == sc.produced + interval_samples(st0.interval_ms)
            &&& plan.auto_text matches Some(t) && t@ == "Test #"@ + decimal(s1.seq as nat)
        }
        &&& !auto_due ==> {
            &&& s1.seq == sc.seq
            &&& s1.next_tx_at == sc.next_tx_at
            &&& plan.auto_text is None
        }
    }
}

/// Plan one tick of the radio loop (see [`tick_planned`]).
pub fn plan_tick(st: &mut RadioState, sched: &mut LoopSchedule) -> (plan: TickPlan)
    requires
        tick_in_range(old(st)@, *old(sched)),
    ensures
        tick_planned(old(st)@, *old(sched), final(st)@, *final(sched), plan),
{
    if !st.running {
        return TickPlan {
            rebuild_nodes: None,
            rebuild_driver: false,
            beacon: false,
            refresh_neighbours: false,
            texts: Vec::new(),
            auto_text: None,
        };
    }
    let rebuild_nodes = if st.rebuild_nodes {
        Some(mode_log_text(st.mode))
    } else {
        None
    };
    st.rebuild_nodes = false;
    let rebuild_driver = st.rebuild_driver;
    st.rebuild_driver = false;
    if rebuild_driver {
        sched.restart();
    }
    sched.set_interval(st.interval_ms);
    let allowed = tx_allowed(st.mode);
    let due = sched.beacon_due();
    let mut texts: Vec<String> = Vec::new();
    std::mem::swap(&mut texts, &mut st.tx_queue);
    if !allowed {
        texts = Vec::new();
    }
    let auto_text = match sched.auto_tx_due(allowed, st.auto_tx, st.interval_ms) {
        Some(n) => Some(auto_tx_text(n)),
        None => None,
    };
    proof {
        assert(st@.tx_queue =~= Seq::<Seq<char>>::empty());
    }
    TickPlan { rebuild_nodes, rebuild_driver, beacon: allowed && due, refresh_neighbours: due, texts, auto_text }
}

/// The relay copy to transmit: none in Listen mode, else the one the node
/// produced.
pub fn relay_for(mode: SimMode, fwd: Option<MeshFrame>) -> (r: Option<MeshFrame>)
    ensures
        mode == SimMode::Listen ==> r is None,
        mode != SimMode::Listen ==> r == fwd,
{
    if tx_allowed(mode) {
        fwd
    } else {
        None
    }
}

/// One iteration of the radio loop's decisions: the pending commands are
/// applied, oldest first, whether or not the loop is running, and then the
/// tick is planned on the resulting state.
pub fn run_tick(st: &mut RadioState, sched: &mut LoopSchedule, cmds: Vec<Command>) -> (plan: TickPlan)
    requires
        tick_in_range(after_commands(old(st)@, cmds@), *old(sched)),
    ensures
        tick_planned(after_commands(old(st)@, cmds@), *old(sched), final(st)@, *final(sched), plan),
{
    apply_commands(st, cmds);
    plan_tick(st, sched)
}

/// While the loop is paused its commands are still applied and nothing
/// else happens: no rebuild, no beacon, no transmission, the schedule
/// stands still.  A command that sets it running takes effect at once, so
/// the next tick is a running one.
pub proof fn lemma_paused_tick_applies_commands(
    st0: crate::model::RadioView,
    s0: LoopSchedule,
    cmds: Seq<Command>,
    st1: crate::model::RadioView,
    s1: LoopSchedule,
    plan: TickPlan,
)
    requires
        tick_planned(after_commands(st0, cmds), s0, st1, s1, plan),
    ensures
        !after_commands(st0, cmds).running ==> {
            &&& st1 == after_commands(st0, cmds)
            &&& s1 == s0
            &&& !plan.beacon && !plan.rebuild_driver && plan.rebuild_nodes is None
            &&& plan.texts@.len() == 0 && plan.auto_text is None
        },
        cmds.len() > 0 && cmds.last() == Command::SetRunning(true) ==> after_commands(st0, cmds).running,
        cmds.len() > 0 && cmds.last() == Command::SetRunning(false) ==> !after_commands(st0, cmds).running,
{
    if cmds.len() > 0 {
        let mid = after_commands(st0, cmds.drop_last());
        let c = cmds.last();
        match c {
            Command::SetRunning(on) => {
                let a = RadioView { running: on, ..mid };
                assert(command_applied(mid, c, a));
            },
            _ => {},
        }
    }
}

/// What the radio loop does with the result of processing a received frame.
pub struct RxAction {
    /// A message was delivered: count it.
    pub counted: bool,
    /// How the delivered message is shown in the log.
    pub label: Option<String>,
    /// Why the frame was refused, to be logged as an error.
    pub error: Option<ProcessError>,
    /// The relay copy to transmit.
    pub relay: Option<MeshFrame>,
}

/// The action for a processed frame.  A delivered message is counted and
/// logged in either mode; a refused frame is logged as an error; the relay
/// copy goes out in Terminal mode only.
pub fn rx_action(mode: SimMode, r: Result<(Option<MeshMessage>, Option<MeshFrame>), ProcessError>) -> (a: RxAction)
    ensures
        match r {
            Ok((Some(m), fwd)) => {
                &&& a.counted
                &&& a.label matches Some(t) && t@ == rx_label_text(m.data@)
                &&& a.error is None
                &&& a.relay == if mode == SimMode::Listen { None } else { fwd }
            },
            Ok((None, fwd)) => {
                &&& !a.counted
                &&& a.label is None
                &&& a.error is None
                &&& a.relay == if mode == SimMode::Listen { None } else { fwd }
            },
            Err(e) => !a.counted && a.label is None && a.error == Some(e) && a.relay is None,
        },
{
    match r {
        Ok((Some(m), fwd)) => {
            let mut label = String::new();
            push_rx_label(&mut label, &m.data);
            RxAction { counted: true, label: Some(label), error: None, relay: relay_for(mode, fwd) }
        },
        Ok((None, fwd)) => RxAction { counted: false, label: None, error: None, relay: relay_for(mode, fwd) },
        Err(e) => RxAction { counted: false, label: None, error: Some(e), relay: None },
    }
}

} // verus!
