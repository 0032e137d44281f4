//! Airtime ledger for LoRa duty-cycle limits.
//!
//! Tracks the on-air time of recent transmissions in a rolling 3 600-second
//! window and decides whether another transmission fits an airtime budget
//! (e.g. EU868 = 1 % of the window). Times are in nanoseconds on a monotonic
//! clock chosen by the caller.
use vstd::prelude::*;

verus! {

/// Length of the rolling window: one hour, in nanoseconds.
pub const WINDOW_NANOS: u64 = 3_600_000_000_000;

/// Total airtime of the ledger entries `(timestamp, airtime)`.
pub open spec fn airtime_sum(log: Seq<(u64, u64)>) -> int
    decreases log.len(),
{
    if log.len() == 0 {
        0
    } else {
        airtime_sum(log.drop_last()) + log.last().1
    }
}

/// The oldest timestamp still inside the window at time `now`.
pub open spec fn window_start(now: u64) -> u64 {
    if now >= WINDOW_NANOS {
        (now - WINDOW_NANOS) as u64
    } else {
        0
    }
}

/// How many entries at the front of `log` are older than `cutoff`.
pub open spec fn stale_prefix(log: Seq<(u64, u64)>, cutoff: u64) -> nat
    decreases log.len(),
{
    if log.len() > 0 && log[0].0 < cutoff {
        1 + stale_prefix(log.drop_first(), cutoff)
    } else {
        0
    }
}

/// The ledger once the entries that left the window at `now` are dropped
/// from its front.
pub open spec fn after_evict(log: Seq<(u64, u64)>, now: u64) -> Seq<(u64, u64)> {
    log.skip(stale_prefix(log, window_start(now)) as int)
}

proof fn lemma_stale_prefix_step(log: Seq<(u64, u64)>, cutoff: u64, k: int)
    requires
        0 <= k < log.len(),
        forall|j: int| 0 <= j < k ==> #[trigger] log[j].0 < cutoff,
    ensures
        log[k].0 < cutoff ==> forall|j: int| 0 <= j <= k ==> #[trigger] log[j].0 < cutoff,
        log[k].0 >= cutoff ==> stale_prefix(log, cutoff) == k,
    decreases k,
{
    if k > 0 {
        let rest = log.drop_first();
        assert forall|j: int| 0 <= j < k - 1 implies #[trigger] rest[j].0 < cutoff by {
            assert(rest[j] == log[j + 1]);
        }
        lemma_stale_prefix_step(rest, cutoff, k - 1);
    }
}

proof fn lemma_stale_prefix_all(log: Seq<(u64, u64)>, cutoff: u64)
    requires
        forall|j: int| 0 <= j < log.len() ==> #[trigger] log[j].0 < cutoff,
    ensures
        stale_prefix(log, cutoff) == log.len(),
    decreases log.len(),
{
    if log.len() > 0 {
        let rest = log.drop_first();
        assert forall|j: int| 0 <= j < rest.len() implies #[trigger] rest[j].0 < cutoff by {
            assert(rest[j] == log[j + 1]);
        }
        lemma_stale_prefix_all(rest, cutoff);
    }
}

/// Ring of `(timestamp, airtime)` entries for recent transmissions, oldest first.
pub struct AirtimeLedger {
    log: Vec<(u64, u64)>,
}

impl View for AirtimeLedger {
    type V = Seq<(u64, u64)>;

    closed spec fn view(&self) -> Seq<(u64, u64)> {
        self.log@
    }
}

impl AirtimeLedger {
    /// An empty ledger.
    pub fn new() -> (l: Self)
        ensures
            l@ == Seq::<(u64, u64)>::empty(),
    {
        AirtimeLedger { log: Vec::new() }
    }

    /// Record a completed transmission of `t_air` nanoseconds at time `at`.
    pub fn record_tx(&mut self, at: u64, t_air: u64)
        ensures
            final(self)@ == old(self)@.push((at, t_air)),
    {
        self.log.push((at, t_air));
    }

    /// Drop the entries at the front that are older than the window at `now`.
    pub fn evict_stale(&mut self, now: u64)
        ensures
            final(self)@ == after_evict(old(self)@, now),
    {
        let cutoff: u64 = if now >= WINDOW_NANOS {
            now - WINDOW_NANOS
        } else {
            0
        };
        let ghost log = self.log@;
        let mut k: usize = 0;
        while k < self.log.len() && self.log[k].0 < cutoff
            invariant
                self.log@ == log,
                cutoff == window_start(now),
                k <= log.len(),
                forall|j: int| 0 <= j < k ==> #[trigger] log[j].0 < cutoff,
            decreases log.len() - k,
        {
            proof {
                lemma_stale_prefix_step(log, cutoff, k as int);
            }
            k = k + 1;
        }
        proof {
            if k < log.len() {
                lemma_stale_prefix_step(log, cutoff, k as int);
            } else {
                lemma_stale_prefix_all(log, cutoff);
            }
        }
        let mut kept: Vec<(u64, u64)> = Vec::new();
        let mut i: usize = k;
        while i < self.log.len()
            invariant
                self.log@ == log,
                k <= i <= log.len(),
                kept@ == log.subrange(k as int, i as int),
            decreases log.len() - i,
        {
            kept.push(self.log[i]);
            i = i + 1;
            assert(kept@ =~= log.subrange(k as int, i as int));
        }
        self.log = kept;
    }

    /// Total airtime of the recorded entries, in nanoseconds.
    pub fn used_airtime(&self) -> (used: u128)
        ensures
            used == airtime_sum(self@),
    {
        let mut used: u128 = 0;
        let mut i: usize = 0;
        while i < self.log.len()
            invariant
                i <= self.log@.len(),
                used == airtime_sum(self.log@.take(i as int)),
                used <= i * 0xFFFF_FFFF_FFFF_FFFFu128,
            decreases self.log@.len() - i,
        {
            assert(self.log@.take(i + 1).drop_last() =~= self.log@.take(i as int));
            let t = self.log[i].1;
            assert(used + t <= (i + 1) * 0xFFFF_FFFF_FFFF_FFFFu128) by (nonlinear_arith)
                requires
                    used <= i * 0xFFFF_FFFF_FFFF_FFFFu128,
                    t <= 0xFFFF_FFFF_FFFF_FFFFu64,
            ;
            assert((i + 1) * 0xFFFF_FFFF_FFFF_FFFFu128 < 0x1_0000_0000_0000_0000_0000_0000_0000_0000) by (nonlinear_arith)
                requires
                    i < 0xFFFF_FFFF_FFFF_FFFFu64,
            ;
            used = used + t as u128;
            i = i + 1;
        }
        assert(self.log@.take(i as int) =~= self.log@);
        used
    }

    /// Whether a transmission of `t_air` nanoseconds at `now` fits within
    /// `budget` nanoseconds of airtime per window; stale entries are dropped
    /// first.
    pub fn can_send(&mut self, now: u64, t_air: u64, budget: u64) -> (ok: bool)
        ensures
            final(self)@ == after_evict(old(self)@, now),
            ok == (airtime_sum(final(self)@) + t_air <= budget),
    {
        self.evict_stale(now);
        let used = self.used_airtime();
        if used > budget as u128 {
            false
        } else {
            used + t_air as u128 <= budget as u128
        }
    }
}

/// Eviction at `now` drops a front part of the ledger and keeps the rest in
/// order: every dropped entry was recorded more than an hour
/// (3 600 000 000 000 ns) before `now`, and the first kept entry, if any,
/// was not.  On a ledger in time order, as `record_tx` builds it with rising
/// times, every kept entry is from the last hour and every entry from the
/// last hour is kept.
pub proof fn lemma_evict_drops_exactly_stale(log: Seq<(u64, u64)>, now: u64)
    ensures
        ({
            let kept = after_evict(log, now);
            let gone = log.len() - kept.len();
            &&& kept.len() <= log.len()
            &&& kept == log.subrange(gone, log.len() as int)
            &&& forall|i: int| 0 <= i < gone ==> #[trigger] log[i].0 + 3_600_000_000_000 < now
            &&& kept.len() > 0 ==> kept[0].0 + 3_600_000_000_000 >= now
            &&& (forall|i: int, j: int| 0 <= i <= j < log.len() ==> #[trigger] log[i].0 <= #[trigger] log[j].0)
                ==> {
                &&& forall|i: int| 0 <= i < kept.len() ==> #[trigger] kept[i].0 + 3_600_000_000_000 >= now
                &&& forall|i: int| 0 <= i < log.len() && #[trigger] log[i].0 + 3_600_000_000_000 >= now ==> i >= gone
            }
        }),
{
    let cutoff = window_start(now);
    let k = stale_prefix(log, cutoff);
    lemma_stale_prefix_facts(log, cutoff);
    let kept = after_evict(log, now);
    assert(kept =~= log.subrange(k as int, log.len() as int));
    if forall|i: int, j: int| 0 <= i <= j < log.len() ==> #[trigger] log[i].0 <= #[trigger] log[j].0 {
        if kept.len() > 0 {
            assert forall|i: int| 0 <= i < kept.len() implies #[trigger] kept[i].0 >= cutoff by {
                assert(log[k as int].0 <= log[k + i].0);
            }
        }
    }
}

/// The airtime of a ledger is the sum of its entries' airtimes: none for an
/// empty ledger, and a recorded transmission adds its own airtime, wherever
/// the ledger is split.
pub proof fn lemma_airtime_sum_adds(a: Seq<(u64, u64)>, b: Seq<(u64, u64)>, at: u64, t_air: u64)
    ensures
        airtime_sum(Seq::<(u64, u64)>::empty()) == 0,
        airtime_sum(a.push((at, t_air))) == airtime_sum(a) + t_air,
        airtime_sum(a + b) == airtime_sum(a) + airtime_sum(b),
        airtime_sum(a) >= 0,
    decreases b.len(),
{
    assert(a.push((at, t_air)).drop_last() =~= a);
    lemma_airtime_sum_nonneg(a);
    if b.len() == 0 {
        assert(a + b =~= a);
    } else {
        lemma_airtime_sum_adds(a, b.drop_last(), at, t_air);
        assert((a + b).drop_last() =~= a + b.drop_last());
    }
}

proof fn lemma_airtime_sum_nonneg(a: Seq<(u64, u64)>)
    ensures
        airtime_sum(a) >= 0,
    decreases a.len(),
{
    if a.len() > 0 {
        lemma_airtime_sum_nonneg(a.drop_last());
    }
}

/// The stale prefix is no longer than the ledger, every entry in it is
/// older than `cutoff`, and the entry after it is not.
proof fn lemma_stale_prefix_facts(log: Seq<(u64, u64)>, cutoff: u64)
    ensures
        stale_prefix(log, cutoff) <= log.len(),
        forall|i: int| 0 <= i < stale_prefix(log, cutoff) ==> #[trigger] log[i].0 < cutoff,
        stale_prefix(log, cutoff) < log.len() ==> log[stale_prefix(log, cutoff) as int].0 >= cutoff,
    decreases log.len(),
{
    if log.len() > 0 && log[0].0 < cutoff {
        let rest = log.drop_first();
        lemma_stale_prefix_facts(rest, cutoff);
        assert forall|i: int| 0 <= i < stale_prefix(log, cutoff) implies #[trigger] log[i].0 < cutoff by {
            if i > 0 {
                assert(log[i] == rest[i - 1]);
            }
        }
        if stale_prefix(log, cutoff) < log.len() {
            assert(log[stale_prefix(log, cutoff) as int] == rest[stale_prefix(rest, cutoff) as int]);
        }
    }
}

/// A transmission recorded at `now` right after `can_send` allowed it leaves
/// the ledger's airtime within the budget.
pub proof fn lemma_send_stays_within_budget(log: Seq<(u64, u64)>, now: u64, t_air: u64, budget: u64)
    requires
        airtime_sum(after_evict(log, now)) + t_air <= budget,
    ensures
        airtime_sum(after_evict(log, now).push((now, t_air))) <= budget,
{
    let kept = after_evict(log, now);
    assert(kept.push((now, t_air)).drop_last() =~= kept);
}

} // verus!
