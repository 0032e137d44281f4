//! State shared between the radio loop and its user interfaces: the
//! operating mode, the message log, and the loop's defaults.
use vstd::prelude::*;
use std::collections::VecDeque;

verus! {

/// Default spreading factor.
pub const DEFAULT_SF: u8 = 11;

/// Default interval between automatic test messages, in milliseconds.
pub const DEFAULT_INTERVAL_MS: u64 = 2000;

/// Default modem preset (LongFast), as an index into the preset table.
pub const DEFAULT_PRESET_IDX: usize = 5;

/// FFT size of the spectrum and waterfall plots.
pub const FFT_SIZE: usize = 2048;

/// Sample rate driving the radio loop.
pub const SR_HZ: u64 = 1_000_000;

/// Operating mode.
#[derive(Debug, Clone, Copy, PartialEq, Eq, Structural)]
pub enum SimMode {
    /// Normal operation: manual and automatic TX, RX, relaying.
    Terminal,
    /// RX only: no beacons, no relaying, no user messages.
    Listen,
}

/// Direction or kind of a message-log entry.
#[derive(Debug, Clone, Copy, PartialEq, Eq, Structural)]
pub enum MsgDir {
    Tx,
    Rx,
    Fwd,
    System,
    Error,
}

/// One line of the message log.
#[derive(Debug, Clone)]
pub struct LogEntry {
    pub time: String,
    pub dir: MsgDir,
    pub text: String,
    pub from_id: Option<u32>,
    pub hops: Option<u8>,
    pub self_origin: bool,
}

/// The radio loop's settings, queues and counters, in plain values.  The
/// floating-point settings (signal and noise levels, SDR frequency and
/// gains) are held by the caller.
pub struct RadioState {
    pub running: bool,
    pub sf: u8,
    pub interval_ms: u64,
    pub mode: SimMode,
    pub node_short: String,
    pub node_long: String,
    pub tx_dest: u32,
    pub use_uhd: bool,
    pub uhd_args: String,
    pub uhd_warning: Option<String>,
    pub auto_tx: bool,
    /// Texts the user asked to send, oldest first.
    pub tx_queue: Vec<String>,
    pub tx_count: u64,
    pub rx_count: u64,
    pub log: VecDeque<LogEntry>,
    /// The driver must be rebuilt before the next tick.
    pub rebuild_driver: bool,
    /// The node must be rebuilt (identity or mode changed).
    pub rebuild_nodes: bool,
}

/// The value of a [`RadioState`].
pub ghost struct RadioView {
    pub running: bool,
    pub sf: u8,
    pub interval_ms: u64,
    pub mode: SimMode,
    pub node_short: Seq<char>,
    pub node_long: Seq<char>,
    pub tx_dest: u32,
    pub use_uhd: bool,
    pub uhd_args: Seq<char>,
    pub uhd_warning: Option<Seq<char>>,
    pub auto_tx: bool,
    pub tx_queue: Seq<Seq<char>>,
    pub tx_count: u64,
    pub rx_count: u64,
    pub log: Seq<LogEntry>,
    pub rebuild_driver: bool,
    pub rebuild_nodes: bool,
}

impl View for RadioState {
    type V = RadioView;

    open spec fn view(&self) -> RadioView {
        RadioView {
            running: self.running,
            sf: self.sf,
            interval_ms: self.interval_ms,
            mode: self.mode,
            node_short: self.node_short@,
            node_long: self.node_long@,
            tx_dest: self.tx_dest,
            use_uhd: self.use_uhd,
            uhd_args: self.uhd_args@,
            uhd_warning: match self.uhd_warning {
                Some(w) => Some(w@),
                None => None,
            },
            auto_tx: self.auto_tx,
            tx_queue: self.tx_queue@.map_values(|t: String| t@),
            tx_count: self.tx_count,
            rx_count: self.rx_count,
            log: self.log@,
            rebuild_driver: self.rebuild_driver,
            rebuild_nodes: self.rebuild_nodes,
        }
    }
}

/// A user-initiated change of the radio state.  The floating-point settings
/// carry no value here: the caller stores the level itself, and applying
/// the command makes the decisions that follow from it.
pub enum Command {
    SetSf(u8),
    SetSignalDb,
    SetNoiseDb,
    SetIntervalMs(u64),
    SetMode(SimMode),
    SetNodeShort(String),
    SetNodeLong(String),
    SetTxDest(u32),
    SetUhdEnabled(bool),
    SetUhdArgs(String),
    SetUhdFreqHz,
    SetUhdRxGainDb,
    SetUhdTxGainDb,
    SetAutoTx(bool),
    SetRunning(bool),
    SendText(String),
    ResetStats,
}

/// The state `after` is `before` with command `c` applied: the setting is
/// stored; a new mode or name asks for the node to be rebuilt; switching the
/// SDR on or off, or changing its arguments or frequency while it is on,
/// asks for the driver to be rebuilt (switching it on clears the last SDR
/// warning); a text joins the queue; resetting clears the counters and the
/// log.
pub open spec fn command_applied(before: RadioView, c: Command, after: RadioView) -> bool {
    match c {
        Command::SetSf(n) => after == RadioView { sf: n, ..before },
        Command::SetSignalDb | Command::SetNoiseDb | Command::SetUhdRxGainDb | Command::SetUhdTxGainDb => after == before,
        Command::SetIntervalMs(v) => after == RadioView { interval_ms: v, ..before },
        Command::SetMode(m) => after == RadioView { mode: m, rebuild_nodes: true, ..before },
        Command::SetNodeShort(t) => after == RadioView { node_short: t@, rebuild_nodes: true, ..before },
        Command::SetNodeLong(t) => after == RadioView { node_long: t@, rebuild_nodes: true, ..before },
        Command::SetTxDest(id) => after == RadioView { tx_dest: id, ..before },
        Command::SetUhdEnabled(on) => after == RadioView {
            use_uhd: on,
            uhd_warning: if on { None } else { before.uhd_warning },
            rebuild_driver: true,
            ..before
        },
        Command::SetUhdArgs(t) => after == RadioView {
            uhd_args: t@,
            rebuild_driver: before.rebuild_driver || before.use_uhd,
            ..before
        },
        Command::SetUhdFreqHz => after == RadioView { rebuild_driver: before.rebuild_driver || before.use_uhd, ..before },
        Command::SetAutoTx(on) => after == RadioView { auto_tx: on, ..before },
        Command::SetRunning(on) => after == RadioView { running: on, ..before },
        Command::SendText(t) => after == RadioView { tx_queue: before.tx_queue.push(t@), ..before },
        Command::ResetStats => after == RadioView { tx_count: 0, rx_count: 0, log: Seq::empty(), ..before },
    }
}

impl Command {
    /// Apply this command to the radio state.
    pub fn apply(self, st: &mut RadioState)
        ensures
            command_applied(old(st)@, self, final(st)@),
    {
        let ghost c = self;
        match self {
            Command::SetSf(n) => st.sf = n,
            Command::SetSignalDb | Command::SetNoiseDb | Command::SetUhdRxGainDb | Command::SetUhdTxGainDb => {},
            Command::SetIntervalMs(v) => st.interval_ms = v,
            Command::SetMode(m) => {
                st.mode = m;
                st.rebuild_nodes = true;
            },
            Command::SetNodeShort(t) => {
                st.node_short = t;
                st.rebuild_nodes = true;
            },
            Command::SetNodeLong(t) => {
                st.node_long = t;
                st.rebuild_nodes = true;
            },
            Command::SetTxDest(id) => st.tx_dest = id,
            Command::SetUhdEnabled(on) => {
                st.use_uhd = on;
                if on {
                    st.uhd_warning = None;
                }
                st.rebuild_driver = true;
            },
            Command::SetUhdArgs(t) => {
                st.uhd_args = t;
                if st.use_uhd {
                    st.rebuild_driver = true;
                }
            },
            Command::SetUhdFreqHz => {
                if st.use_uhd {
                    st.rebuild_driver = true;
                }
            },
            Command::SetAutoTx(on) => st.auto_tx = on,
            Command::SetRunning(on) => st.running = on,
            Command::SendText(t) => {
                st.tx_queue.push(t);
                assert(st@.tx_queue =~= old(st)@.tx_queue.push(c->SendText_0@));
            },
            Command::ResetStats => {
                st.tx_count = 0;
                st.rx_count = 0;
                st.log.clear();
            },
        }
    }
}

/// Applying a command gives one state only.
pub proof fn lemma_command_applied_unique(before: RadioView, c: Command, a1: RadioView, a2: RadioView)
    requires
        command_applied(before, c, a1),
        command_applied(before, c, a2),
    ensures
        a1 == a2,
{
}

/// The state after applying the commands `cs` to `before`, in order.
pub open spec fn after_commands(before: RadioView, cs: Seq<Command>) -> RadioView
    decreases cs.len(),
{
    if cs.len() == 0 {
        before
    } else {
        let mid = after_commands(before, cs.drop_last());
        choose|a: RadioView| command_applied(mid, cs.last(), a)
    }
}

/// Apply the pending commands, oldest first.
pub fn apply_commands(st: &mut RadioState, cmds: Vec<Command>)
    ensures
        final(st)@ == after_commands(old(st)@, cmds@),
{
    let ghost all = cmds@;
    let mut rest = cmds;
    let mut k: usize = 0;
    assert(all.len() == rest.len());
    assert(all.take(0) =~= Seq::<Command>::empty());
    while rest.len() > 0
        invariant
            k + rest@.len() == all.len(),
            all.len() <= usize::MAX,
            rest@ == all.skip(k as int),
            st@ == after_commands(old(st)@, all.take(k as int)),
        decreases rest@.len(),
    {
        let c = rest.remove(0);
        let ghost mid = st@;
        assert(c == all[k as int]);
        c.apply(st);
        proof {
            let done = all.take(k as int + 1);
            assert(done.drop_last() =~= all.take(k as int));
            assert(done.last() == c);
            let a = choose|a: RadioView| command_applied(mid, c, a);
            lemma_command_applied_unique(mid, c, a, st@);
            assert(rest@ =~= all.skip(k as int + 1));
        }
        k = k + 1;
    }
    assert(all.take(k as int) =~= all);
}

/// What a new view tells the radio loop at start-up: with the SDR on, stop
/// automatic messages and listen only; otherwise nothing.
pub fn startup_commands(use_uhd: bool) -> (r: Vec<Command>)
    ensures
        use_uhd ==> r@ == seq![Command::SetAutoTx(false), Command::SetMode(SimMode::Listen)],
        !use_uhd ==> r@.len() == 0,
{
    let mut r: Vec<Command> = Vec::new();
    if use_uhd {
        r.push(Command::SetAutoTx(false));
        r.push(Command::SetMode(SimMode::Listen));
    }
    r
}

} // verus!
