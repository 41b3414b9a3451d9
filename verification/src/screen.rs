//! The screen's counters: packets per second over the whole view and per
//! /16 in the detail view, packets per registry and the busiest registries,
//! and what a reset of the main view clears.

use vstd::prelude::*;
use std::collections::BTreeMap;

use crate::activity::{bucket_count, fresh_model, ActivityBuckets};
use crate::rir::{get_rir_index, rir_index};
use crate::tally::{add_one, count_in, increment};

verus! {

/// One second, in nanoseconds.
pub const ONE_SECOND: u64 = 1_000_000_000;

/// Starts the main view over: an empty activity window covering
/// `hold_duration` nanoseconds from `window_now`, no registry counts, no
/// packets, a packets-per-second window starting at `pps_now` and a stats
/// timer starting at `stats_now`. The three times are the clock read, in
/// that order, as each part is reset.
pub fn reset_screen_state(
    activity: &mut ActivityBuckets,
    hold_duration: u64,
    rir_counter: &mut BTreeMap<u8, usize>,
    rir_delta: &mut BTreeMap<u8, usize>,
    packet_count: &mut usize,
    pps: &mut usize,
    pps_window_start: &mut u64,
    last_stats_calc: &mut u64,
    window_now: u64,
    pps_now: u64,
    stats_now: u64,
)
    ensures
        final(activity).wf(),
        final(activity)@ == fresh_model(bucket_count(hold_duration), window_now),
        final(rir_counter)@ == Map::<u8, usize>::empty(),
        final(rir_delta)@ == Map::<u8, usize>::empty(),
        *final(packet_count) == 0,
        *final(pps) == 0,
        *final(pps_window_start) == pps_now,
        *final(last_stats_calc) == stats_now,
{
    activity.reset(window_now, hold_duration);
    rir_counter.clear();
    rir_delta.clear();
    *packet_count = 0;
    *pps = 0;
    *pps_window_start = pps_now;
    *last_stats_calc = stats_now;
}

/// The packets-per-second figure of the status line, and the running packet
/// count. Times are nanoseconds on a monotonic clock.
pub struct PpsMeter {
    /// Packets received since the count was last cleared.
    pub packet_count: usize,
    /// The figure shown.
    pub pps: usize,
    /// Packets counted in the current one-second window.
    pub accumulator: usize,
    /// The start of the current one-second window.
    pub window_start: u64,
}

impl PpsMeter {
    /// A meter that has counted nothing, with its window starting at `now`.
    pub fn new(now: u64) -> (m: PpsMeter)
        ensures
            m.packet_count == 0,
            m.pps == 0,
            m.accumulator == 0,
            m.window_start == now,
    {
        PpsMeter { packet_count: 0, pps: 0, accumulator: 0, window_start: now }
    }

    /// Accounts a batch of `count` packets received at `now`. An exact figure
    /// from a capture file (`pps_stat`) is shown at once and restarts the
    /// window; otherwise the batch is added to the window, whose total is
    /// shown once a second has passed since it started.
    pub fn apply_batch(&mut self, count: usize, pps_stat: Option<usize>, now: u64)
        requires
            old(self).packet_count + count <= usize::MAX,
            old(self).accumulator + count <= usize::MAX,
        ensures
            final(self).packet_count == old(self).packet_count + count,
            match pps_stat {
                Some(exact) => {
                    &&& final(self).pps == exact
                    &&& final(self).accumulator == 0
                    &&& final(self).window_start == now
                },
                None => if now >= old(self).window_start + ONE_SECOND {
                    &&& final(self).pps == old(self).accumulator + count
                    &&& final(self).accumulator == 0
                    &&& final(self).window_start == now
                } else {
                    &&& final(self).pps == old(self).pps
                    &&& final(self).accumulator == old(self).accumulator + count
                    &&& final(self).window_start == old(self).window_start
                },
            },
    {
        self.packet_count = self.packet_count + count;
        match pps_stat {
            Some(exact) => {
                self.pps = exact;
                self.accumulator = 0;
                self.window_start = now;
            },
            None => {
                self.accumulator = self.accumulator + count;
                let elapsed = if now > self.window_start {
                    now - self.window_start
                } else {
                    0
                };
                if elapsed >= ONE_SECOND {
                    self.pps = self.accumulator;
                    self.accumulator = 0;
                    self.window_start = now;
                }
            },
        }
    }
}

impl PpsMeter {
    /// In live capture the packet count covers the current second only: once
    /// a second has passed since `last_stats_calc`, the count is cleared and
    /// `last_stats_calc` moves to `now`.
    pub fn roll_live_count(&mut self, last_stats_calc: &mut u64, now: u64)
        ensures
            if now >= *old(last_stats_calc) + ONE_SECOND {
                &&& final(self).packet_count == 0
                &&& *final(last_stats_calc) == now
            } else {
                &&& final(self).packet_count == old(self).packet_count
                &&& *final(last_stats_calc) == *old(last_stats_calc)
            },
            final(self).pps == old(self).pps,
            final(self).accumulator == old(self).accumulator,
            final(self).window_start == old(self).window_start,
    {
        let elapsed = if now > *last_stats_calc {
            now - *last_stats_calc
        } else {
            0
        };
        if elapsed >= ONE_SECOND {
            self.packet_count = 0;
            *last_stats_calc = now;
        }
    }
}

/// Counts one packet from the first octet `octet1` for its registry, in the
/// tally `delta` keyed by registry index (see `rir_index`).
pub fn count_registry(delta: &mut BTreeMap<u8, usize>, octet1: u8)
    requires
        count_in(old(delta)@, rir_index(octet1)) < usize::MAX,
    ensures
        final(delta)@ == add_one(old(delta)@, rir_index(octet1)),
{
    let id = get_rir_index(octet1);
    increment(delta, id);
}

/// Adds every count of `delta` into `counter` and empties `delta`.
pub fn flush_registry_counts(counter: &mut BTreeMap<u8, usize>, delta: &mut BTreeMap<u8, usize>)
    requires
        forall|k: u8| #[trigger] count_in(old(counter)@, k) + count_in(old(delta)@, k) <= usize::MAX,
    ensures
        forall|k: u8| #[trigger] count_in(final(counter)@, k) == count_in(old(counter)@, k) + count_in(
            old(delta)@,
            k,
        ),
        final(delta)@ == Map::<u8, usize>::empty(),
{
    let ghost c0 = counter@;
    let mut i: u16 = 0;
    while i < 256
        invariant
            i <= 256,
            delta@ == old(delta)@,
            c0 == old(counter)@,
            forall|k: u8| #[trigger] count_in(c0, k) + count_in(delta@, k) <= usize::MAX,
            forall|k: u8| #[trigger] count_in(counter@, k) == count_in(c0, k) + if (k as int) < i {
                count_in(delta@, k)
            } else {
                0
            },
        decreases 256 - i,
    {
        let k = i as u8;
        assert(k == i);
        let ghost before = counter@;
        match delta.get(&k) {
            Some(d) => {
                let c = match counter.get(&k) {
                    Some(c) => *c,
                    None => 0,
                };
                assert(count_in(counter@, k) == count_in(c0, k));
                assert(count_in(c0, k) + count_in(delta@, k) <= usize::MAX);
                counter.insert(k, c + *d);
            },
            None => {},
        }
        assert forall|x: u8| #[trigger] count_in(counter@, x) == count_in(c0, x) + if (x as int) < i
            + 1 {
            count_in(delta@, x)
        } else {
            0
        } by {
            assert(count_in(before, x) == count_in(c0, x) + if (x as int) < i {
                count_in(delta@, x)
            } else {
                0
            });
        }
        i = i + 1;
    }
    delta.clear();
}

/// Whether the registry `k` is among the entries of `r`.
pub open spec fn listed_registry(r: Seq<(u8, usize)>, k: u8) -> bool {
    exists|j: int| 0 <= j < r.len() && #[trigger] r[j].0 == k
}

/// `r` lists at most five registries of `counter` with their counts, each
/// once, busiest first; no registry left out counts more than the last one
/// listed, and fewer than five are listed only when all are.
pub open spec fn top_five_of(counter: Map<u8, usize>, r: Seq<(u8, usize)>) -> bool {
    &&& r.len() <= 5
    &&& forall|j: int| 0 <= j < r.len() ==> #[trigger] counter.contains_key(r[j].0) && counter[r[j].0]
        == r[j].1
    &&& forall|i: int, j: int| 0 <= i < j < r.len() ==> r[i].0 != r[j].0 && r[i].1 >= r[j].1
    &&& forall|k: u8|
        #[trigger] counter.contains_key(k) && !listed_registry(r, k) ==> r.len() == 5 && counter[k]
            <= r[4].1
}

/// The busiest registries of `counter` (at most five), busiest first, for
/// the status line; among equal counts the lower index comes first.
pub fn top_registries(counter: &BTreeMap<u8, usize>) -> (r: Vec<(u8, usize)>)
    ensures
        top_five_of(counter@, r@),
{
    let mut r: Vec<(u8, usize)> = Vec::new();
    let mut round: usize = 0;
    while round < 5
        invariant
            round <= 5,
            r.len() == round,
            forall|j: int| 0 <= j < r.len() ==> #[trigger] counter@.contains_key(r@[j].0)
                && counter@[r@[j].0] == r@[j].1,
            forall|i: int, j: int| 0 <= i < j < r.len() ==> r@[i].0 != r@[j].0 && r@[i].1 >= r@[j].1,
            forall|k: u8|
                #[trigger] counter@.contains_key(k) && !listed_registry(r@, k) && r.len() > 0
                    ==> counter@[k] <= r@[r.len() - 1].1,
        decreases 5 - round,
    {
        let mut best: Option<(u8, usize)> = None;
        let mut i: u16 = 0;
        while i < 256
            invariant
                i <= 256,
                r.len() == round,
                round < 5,
                (best matches Some(b) ==> counter@.contains_key(b.0) && counter@[b.0] == b.1
                    && !listed_registry(r@, b.0)),
                forall|k: u8|
                    #[trigger] counter@.contains_key(k) && !listed_registry(r@, k) && (k as int) < i
                        ==> (best matches Some(b) && counter@[k] <= b.1),
            decreases 256 - i,
        {
            let k = i as u8;
            assert(k == i);
            match counter.get(&k) {
                Some(c) => {
                    let mut seen = false;
                    let mut j: usize = 0;
                    while j < r.len()
                        invariant
                            j <= r.len(),
                            seen <==> exists|x: int| 0 <= x < j && #[trigger] r@[x].0 == k,
                        decreases r.len() - j,
                    {
                        if r[j].0 == k {
                            seen = true;
                        }
                        j = j + 1;
                    }
                    if !seen {
                        let better = match best {
                            None => true,
                            Some(b) => *c > b.1,
                        };
                        if better {
                            best = Some((k, *c));
                        }
                    }
                },
                None => {},
            }
            i = i + 1;
        }
        match best {
            None => {
                assert forall|k: u8| #[trigger] counter@.contains_key(k) && !listed_registry(r@, k)
                    implies r.len() == 5 && counter@[k] <= r@[4].1 by {
                    assert(k < 256);
                }
                return r;
            },
            Some(b) => {
                let ghost r0 = r@;
                r.push(b);
                assert forall|k: u8| #[trigger] counter@.contains_key(k) && !listed_registry(r@, k)
                    && r.len() > 0 implies counter@[k] <= r@[r.len() - 1].1 by {
                    assert(k < 256);
                    if listed_registry(r0, k) {
                        let j = choose|j: int| 0 <= j < r0.len() && #[trigger] r0[j].0 == k;
                        assert(r@[j].0 == k);
                    }
                }
                assert forall|k: u8| listed_registry(r0, k) implies #[trigger] listed_registry(r@, k) by {
                    let j = choose|j: int| 0 <= j < r0.len() && #[trigger] r0[j].0 == k;
                    assert(r@[j].0 == k);
                }
                assert forall|i: int, j: int| 0 <= i < j < r.len() implies r@[i].0 != r@[j].0
                    && r@[i].1 >= r@[j].1 by {
                    if j == r.len() - 1 {
                        assert(r0[i].0 == r@[i].0);
                        assert(listed_registry(r0, r0[i].0));
                    }
                }
            },
        }
        round = round + 1;
    }
    assert forall|k: u8| #[trigger] counter@.contains_key(k) && !listed_registry(r@, k) implies r.len()
        == 5 && counter@[k] <= r@[4].1 by {}
    r
}

/// `m` with one more count for the /16 of each address of `dots`.
pub open spec fn add_networks(m: Map<(u8, u8), usize>, dots: Seq<(u8, u8, u8)>) -> Map<(u8, u8), usize>
    decreases dots.len(),
{
    if dots.len() == 0 {
        m
    } else {
        let d = dots.last();
        add_one(add_networks(m, dots.drop_last()), (d.0, d.1))
    }
}

/// The number of addresses of `dots` in the /16 network `k`.
pub open spec fn network_hits(dots: Seq<(u8, u8, u8)>, k: (u8, u8)) -> nat
    decreases dots.len(),
{
    if dots.len() == 0 {
        0
    } else {
        network_hits(dots.drop_last(), k) + if (dots.last().0, dots.last().1) == k {
            1nat
        } else {
            0nat
        }
    }
}

/// Adding the addresses of `dots` raises the count of each /16 by its hits.
pub proof fn lemma_add_networks_counts(m: Map<(u8, u8), usize>, dots: Seq<(u8, u8, u8)>, k: (u8, u8))
    requires
        forall|j: (u8, u8)| #[trigger] count_in(m, j) + dots.len() <= usize::MAX,
    ensures
        count_in(add_networks(m, dots), k) == count_in(m, k) + network_hits(dots, k),
    decreases dots.len(),
{
    if dots.len() > 0 {
        let d = dots.last();
        let j = (d.0, d.1);
        assert forall|x: (u8, u8)| #[trigger] count_in(m, x) + dots.drop_last().len() <= usize::MAX by {
            assert(count_in(m, x) + dots.len() <= usize::MAX);
        }
        lemma_add_networks_counts(m, dots.drop_last(), k);
        lemma_add_networks_counts(m, dots.drop_last(), j);
        lemma_network_hits_le_len(dots.drop_last(), j);
        assert(count_in(m, j) + dots.len() <= usize::MAX);
    }
}

/// No /16 is hit more often than there are addresses.
pub proof fn lemma_network_hits_le_len(dots: Seq<(u8, u8, u8)>, k: (u8, u8))
    ensures
        network_hits(dots, k) <= dots.len(),
    decreases dots.len(),
{
    if dots.len() > 0 {
        lemma_network_hits_le_len(dots.drop_last(), k);
    }
}

/// The per-/16 packet figures of the detail view: packets are counted per
/// /16 in a window, and the last complete window is shown. When replaying a
/// file the windows follow the capture's seconds; otherwise a window closes
/// once a second has passed since it started. Times are nanoseconds on a
/// monotonic clock.
pub struct DetailPps {
    /// The figures shown.
    pub shown: BTreeMap<(u8, u8), usize>,
    /// The packets counted in the current window.
    pub accumulator: BTreeMap<(u8, u8), usize>,
    /// The start of the current window.
    pub window_start: u64,
    /// Whether a capture second has ended since the view opened, so that the
    /// window after it is complete.
    pub has_complete_window: bool,
}

impl DetailPps {
    /// Figures for a detail view opened at `now`: nothing shown or counted yet.
    pub fn new(now: u64) -> (d: DetailPps)
        ensures
            d.shown@ == Map::<(u8, u8), usize>::empty(),
            d.accumulator@ == Map::<(u8, u8), usize>::empty(),
            d.window_start == now,
            !d.has_complete_window,
    {
        DetailPps {
            shown: BTreeMap::new(),
            accumulator: BTreeMap::new(),
            window_start: now,
            has_complete_window: false,
        }
    }

    /// Accounts a batch received at `now`: `second_ended` tells that the batch
    /// closes a capture second (it carries an exact figure), and `dots` are its
    /// addresses. A closing batch shows the window it ends, if that window
    /// began at a capture second, and starts a new one before its own
    /// addresses are counted; a batch that closes no second ends the window
    /// once a second has passed since it started, after its addresses are counted.
    pub fn apply_batch(&mut self, second_ended: bool, dots: &Vec<(u8, u8, u8)>, now: u64)
        requires
            forall|k: (u8, u8)| #[trigger] count_in(old(self).accumulator@, k) + dots.len()
                <= usize::MAX,
        ensures
            ({
                let shown0 = if second_ended && old(self).has_complete_window {
                    old(self).accumulator@
                } else {
                    old(self).shown@
                };
                let acc0 = if second_ended {
                    Map::<(u8, u8), usize>::empty()
                } else {
                    old(self).accumulator@
                };
                let start0 = if second_ended {
                    now
                } else {
                    old(self).window_start
                };
                let acc1 = add_networks(acc0, dots@);
                &&& final(self).has_complete_window == (old(self).has_complete_window
                    || second_ended)
                &&& if !second_ended && now >= start0 + ONE_SECOND {
                    &&& final(self).shown@ == acc1
                    &&& final(self).accumulator@ == Map::<(u8, u8), usize>::empty()
                    &&& final(self).window_start == now
                } else {
                    &&& final(self).shown@ == shown0
                    &&& final(self).accumulator@ == acc1
                    &&& final(self).window_start == start0
                }
            }),
    {
        if second_ended {
            if self.has_complete_window {
                let mut taken = BTreeMap::new();
                std::mem::swap(&mut self.accumulator, &mut taken);
                self.shown = taken;
            } else {
                self.accumulator.clear();
                self.has_complete_window = true;
            }
            self.window_start = now;
        }
        let ghost acc0 = self.accumulator@;
        let ghost shown0 = self.shown@;
        let ghost start0 = self.window_start;
        let ghost complete0 = self.has_complete_window;
        let mut i: usize = 0;
        while i < dots.len()
            invariant
                i <= dots.len(),
                self.shown@ == shown0,
                self.window_start == start0,
                self.has_complete_window == complete0,
                forall|k: (u8, u8)| #[trigger] count_in(acc0, k) + dots.len() <= usize::MAX,
                self.accumulator@ == add_networks(acc0, dots@.take(i as int)),
            decreases dots.len() - i,
        {
            let (oct1, oct2, _) = dots[i];
            proof {
                assert(dots@.take(i + 1).drop_last() =~= dots@.take(i as int));
                lemma_add_networks_counts(acc0, dots@.take(i as int), (oct1, oct2));
                lemma_network_hits_le_len(dots@.take(i as int), (oct1, oct2));
            }
            increment(&mut self.accumulator, (oct1, oct2));
            i = i + 1;
        }
        assert(dots@.take(dots.len() as int) =~= dots@);
        let elapsed = if now > self.window_start {
            now - self.window_start
        } else {
            0
        };
        if !second_ended && elapsed >= ONE_SECOND {
            let mut taken = BTreeMap::new();
            std::mem::swap(&mut self.accumulator, &mut taken);
            self.shown = taken;
            self.window_start = now;
        }
    }
}

} // verus!
