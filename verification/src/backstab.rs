//! What the auto-backstab detector keeps of each spy: whether the knife is
//! ready to backstab, the last window in which it was, and the spy's recent
//! attacks.
use vstd::prelude::*;

verus! {

/// How far back, in ticks, a spy's attacks are kept.
pub const ATTACK_HISTORY_MAX_TICKS: u32 = 32;

/// `a - b`, or 0 where `b` is the larger.
pub open spec fn sat_sub(a: u32, b: u32) -> u32 {
    if a >= b {
        (a - b) as u32
    } else {
        0
    }
}

/// `a` without its leading attacks made longer than the history ago.
pub open spec fn drop_stale(a: Seq<u32>, tick: u32) -> Seq<u32>
    decreases a.len(),
{
    if a.len() > 0 && sat_sub(tick, a[0]) > ATTACK_HISTORY_MAX_TICKS {
        drop_stale(a.drop_first(), tick)
    } else {
        a
    }
}

/// The attacks kept after an attack at `tick`: it is added unless it is the
/// last one already, and the stale ones at the front go.
pub open spec fn after_attack(a: Seq<u32>, tick: u32) -> Seq<u32> {
    let b = if a.len() > 0 && a.last() == tick {
        a
    } else {
        a.push(tick)
    };
    drop_stale(b, tick)
}

/// Dropping stale attacks keeps a suffix, and keeps the last attack where it
/// was made at `tick`.
pub proof fn lemma_drop_stale(a: Seq<u32>, tick: u32)
    ensures
        drop_stale(a, tick).len() <= a.len(),
        drop_stale(a, tick) == a.subrange(a.len() - drop_stale(a, tick).len(), a.len() as int),
        drop_stale(a, tick).len() > 0 ==> sat_sub(tick, drop_stale(a, tick)[0]) <= ATTACK_HISTORY_MAX_TICKS,
        a.len() > 0 && a.last() == tick ==> drop_stale(a, tick).len() > 0,
    decreases a.len(),
{
    if a.len() > 0 && sat_sub(tick, a[0]) > ATTACK_HISTORY_MAX_TICKS {
        lemma_drop_stale(a.drop_first(), tick);
        assert(a.drop_first().subrange(
            a.drop_first().len() - drop_stale(a.drop_first(), tick).len(),
            a.drop_first().len() as int,
        ) == a.subrange(a.len() - drop_stale(a, tick).len(), a.len() as int));
    } else {
        assert(a.subrange(0, a.len() as int) == a);
    }
}

fn stale(tick: u32, t: u32) -> (b: bool)
    ensures
        b == (sat_sub(tick, t) > ATTACK_HISTORY_MAX_TICKS),
{
    let d = if tick >= t {
        tick - t
    } else {
        0
    };
    d > ATTACK_HISTORY_MAX_TICKS
}

/// `a - b`, or 0 where `b` is the larger.
pub fn sat_sub_u32(a: u32, b: u32) -> (r: u32)
    ensures
        r == sat_sub(a, b),
{
    if a >= b {
        a - b
    } else {
        0
    }
}

/// `v`, or 0 where it is negative.
pub open spec fn clamp_nonneg(v: i32) -> u32 {
    if v < 0 {
        0
    } else {
        v as u32
    }
}

/// The readiness window a stab at `t_attack` belongs to, as its opening
/// tick and its length: the open window, counted up to the stab, or else
/// the last closed window if it closed at most two ticks before the stab.
pub open spec fn stab_window(ready_start: Option<u32>, closed: Option<(u32, u32)>, t_attack: u32) -> Option<
    (u32, int),
> {
    match ready_start {
        Some(t_r) => Some((t_r, sat_sub(t_attack, t_r) + 1)),
        None => match closed {
            Some((t_r, t_c)) => if sat_sub(t_attack, t_c) <= 2 {
                Some((t_r, sat_sub(t_c, t_r) + 1))
            } else {
                None
            },
            None => None,
        },
    }
}

/// The window's length fits in a `u32`.
pub open spec fn timing_fits(ready_start: Option<u32>, closed: Option<(u32, u32)>, t_attack: u32) -> bool {
    stab_window(ready_start, closed, t_attack) matches Some((_, d)) ==> d <= u32::MAX
}

/// Whether the spy attacked in the `p` ticks before the window opened at
/// `t_ready`.
pub open spec fn preswing_seen(attacks: Seq<u32>, t_ready: u32, p: u32) -> bool {
    exists|j: int| 0 <= j < attacks.len() && #[trigger] attacks[j] >= sat_sub(t_ready, p) && attacks[j] < t_ready
}

/// The timing of a backstab.
#[derive(Clone, Copy, Debug, PartialEq, Eq, Structural)]
pub struct BackstabTiming {
    /// The tick the window opened, where a window was found.
    pub ready_tick: Option<u32>,
    /// Ticks from the window opening to the stab, where a window was found.
    pub reaction_ticks: Option<u32>,
    /// The window's length in ticks, where a window was found.
    pub window_duration_ticks: Option<u32>,
    /// Whether the spy was swinging just before the window opened.
    pub was_preswinging: bool,
}

/// The timing of a stab at `t_attack`, with `p` ticks looked at for a
/// preswing.
pub open spec fn timing_spec(
    ready_start: Option<u32>,
    closed: Option<(u32, u32)>,
    attacks: Seq<u32>,
    t_attack: u32,
    p: u32,
) -> BackstabTiming {
    match stab_window(ready_start, closed, t_attack) {
        Some((t_r, d)) => BackstabTiming {
            ready_tick: Some(t_r),
            reaction_ticks: Some(sat_sub(t_attack, t_r)),
            window_duration_ticks: Some(d as u32),
            was_preswinging: preswing_seen(attacks, t_r, p),
        },
        None => BackstabTiming {
            ready_tick: None,
            reaction_ticks: None,
            window_duration_ticks: None,
            was_preswinging: false,
        },
    }
}

/// An instant trigger strike: the stab came within `max_instant_trigger_ticks`
/// (at least 0) of the window opening, with no preswing, no prior tracking
/// and a poor approach.
pub fn is_instant_trigger(
    timing: &BackstabTiming,
    max_instant_trigger_ticks: i32,
    had_prior_tracking: bool,
    poor_approach: bool,
) -> (b: bool)
    ensures
        b == (timing.reaction_ticks matches Some(r) && r <= clamp_nonneg(max_instant_trigger_ticks)
            && !timing.was_preswinging && !had_prior_tracking && poor_approach),
{
    let max: u32 = if max_instant_trigger_ticks < 0 {
        0
    } else {
        max_instant_trigger_ticks as u32
    };
    match timing.reaction_ticks {
        Some(r) => r <= max && !timing.was_preswinging && !had_prior_tracking && poor_approach,
        None => false,
    }
}

/// A fleeting window exploit: a window of at most `fleeting_window_max_ticks`
/// and a stab within `fleeting_reaction_max_ticks` of its opening (both at
/// least 0), with no preswing, no prior tracking and a poor approach.
pub fn is_fleeting_exploit(
    timing: &BackstabTiming,
    fleeting_window_max_ticks: i32,
    fleeting_reaction_max_ticks: i32,
    had_prior_tracking: bool,
    poor_approach: bool,
) -> (b: bool)
    ensures
        b == (timing.reaction_ticks matches Some(r) && timing.window_duration_ticks matches Some(w) && w
            <= clamp_nonneg(fleeting_window_max_ticks) && r <= clamp_nonneg(fleeting_reaction_max_ticks)
            && !timing.was_preswinging && !had_prior_tracking && poor_approach),
{
    let wmax: u32 = if fleeting_window_max_ticks < 0 {
        0
    } else {
        fleeting_window_max_ticks as u32
    };
    let rmax: u32 = if fleeting_reaction_max_ticks < 0 {
        0
    } else {
        fleeting_reaction_max_ticks as u32
    };
    match (timing.reaction_ticks, timing.window_duration_ticks) {
        (Some(r), Some(w)) => w <= wmax && r <= rmax && !timing.was_preswinging && !had_prior_tracking
            && poor_approach,
        _ => false,
    }
}

/// Whether a stab counts toward the end-of-demo aggregate: a window was
/// found, with no preswing, no prior tracking and a poor approach.
pub fn counts_toward_aggregate(timing: &BackstabTiming, had_prior_tracking: bool, poor_approach: bool) -> (b:
    bool)
    ensures
        b == (!timing.was_preswinging && !had_prior_tracking && poor_approach && timing.reaction_ticks is Some),
{
    !timing.was_preswinging && !had_prior_tracking && poor_approach && timing.reaction_ticks.is_some()
}

/// Whether a spy has enough counted stabs to be judged at the end of the
/// demo: at least `min_stabs_aggregate`, and at least one.
pub fn enough_stabs(counted: usize, min_stabs_aggregate: i32) -> (b: bool)
    ensures
        b == (counted >= if min_stabs_aggregate < 1 {
            1
        } else {
            min_stabs_aggregate as int
        }),
{
    let min: usize = if min_stabs_aggregate < 1 {
        1
    } else {
        min_stabs_aggregate as usize
    };
    counted >= min
}

/// Whether a hit is one the auto-backstab detector looks at: a critical hit
/// with weapon 7 dealing more than 400 damage, or at least five and a half
/// times the victim's health.
pub fn is_backstab_hit(damage: u16, is_crit: bool, weapon_id: u16, victim_health: u16) -> (b: bool)
    ensures
        b == (is_crit && weapon_id == 7 && (damage > 400 || 2 * damage >= 11 * victim_health)),
{
    is_crit && weapon_id == 7 && (damage > 400 || 2 * (damage as u32) >= 11 * (victim_health as u32))
}

/// Whether detection `a` comes no later than detection `b` in (tick,
/// player) order.
pub open spec fn tick_player_le(d: Seq<(u32, u64)>, a: usize, b: usize) -> bool {
    d[a as int].0 < d[b as int].0 || (d[a as int].0 == d[b as int].0 && d[a as int].1 <= d[b as int].1)
}

/// Where `x` goes among the positions `r`: after every one not later than it.
pub open spec fn order_slot(d: Seq<(u32, u64)>, r: Seq<usize>, x: usize, from: int) -> int
    decreases r.len() - from,
{
    if from < 0 || from >= r.len() {
        r.len() as int
    } else if !tick_player_le(d, r[from], x) {
        from
    } else {
        order_slot(d, r, x, from + 1)
    }
}

/// The positions of the first `n` detections in (tick, player) order,
/// equal ones in the order given.
pub open spec fn tick_player_positions(d: Seq<(u32, u64)>, n: int) -> Seq<usize>
    decreases n,
{
    if n <= 0 {
        Seq::empty()
    } else {
        let r = tick_player_positions(d, n - 1);
        r.insert(order_slot(d, r, (n - 1) as usize, 0), (n - 1) as usize)
    }
}

proof fn lemma_order_slot(d: Seq<(u32, u64)>, r: Seq<usize>, x: usize, from: int)
    requires
        0 <= from <= r.len(),
    ensures
        from <= order_slot(d, r, x, from) <= r.len(),
        forall|j: int| from <= j < order_slot(d, r, x, from) ==> tick_player_le(d, #[trigger] r[j], x),
        order_slot(d, r, x, from) < r.len() ==> !tick_player_le(d, r[order_slot(d, r, x, from)], x),
    decreases r.len() - from,
{
    if from < r.len() && tick_player_le(d, r[from], x) {
        lemma_order_slot(d, r, x, from + 1);
    }
}

/// The positions come out as a permutation of the first `n`, in (tick,
/// player) order.
pub proof fn lemma_tick_player_positions(d: Seq<(u32, u64)>, n: int)
    requires
        0 <= n <= d.len(),
        d.len() <= usize::MAX,
    ensures
        tick_player_positions(d, n).len() == n,
        forall|k: int| 0 <= k < n ==> (#[trigger] tick_player_positions(d, n)[k]) < n,
        forall|i: int, j: int|
            0 <= i < j < n ==> tick_player_positions(d, n)[i] != tick_player_positions(d, n)[j],
        forall|i: int, j: int|
            0 <= i < j < n ==> tick_player_le(d, tick_player_positions(d, n)[i], tick_player_positions(d, n)[j]),
    decreases n,
{
    if n > 0 {
        lemma_tick_player_positions(d, n - 1);
        let r = tick_player_positions(d, n - 1);
        let x = (n - 1) as usize;
        lemma_order_slot(d, r, x, 0);
        let p = order_slot(d, r, x, 0);
        let out = r.insert(p, x);
        assert forall|k: int| 0 <= k < n implies (#[trigger] out[k]) < n by {
            if k < p {
                assert(out[k] == r[k]);
            } else if k > p {
                assert(out[k] == r[k - 1]);
            }
        }
        assert forall|i: int, j: int| 0 <= i < j < n implies out[i] != out[j] by {
            if j < p {
                assert(out[i] == r[i] && out[j] == r[j]);
            } else if j == p {
                assert(out[i] == r[i]);
            } else if i < p {
                assert(out[i] == r[i] && out[j] == r[j - 1]);
            } else if i == p {
                assert(out[j] == r[j - 1]);
            } else {
                assert(out[i] == r[i - 1] && out[j] == r[j - 1]);
            }
        }
        assert forall|i: int, j: int| 0 <= i < j < n implies tick_player_le(d, out[i], out[j]) by {
            if j < p {
                assert(out[i] == r[i] && out[j] == r[j]);
            } else if j == p {
                assert(out[i] == r[i]);
                assert(tick_player_le(d, r[i], x));
            } else if i < p {
                assert(out[i] == r[i] && out[j] == r[j - 1]);
                assert(tick_player_le(d, r[i], r[j - 1]));
            } else if i == p {
                assert(out[j] == r[j - 1]);
                assert(!tick_player_le(d, r[p], x));
                if j - 1 > p {
                    assert(tick_player_le(d, r[p], r[j - 1]));
                }
            } else {
                assert(out[i] == r[i - 1] && out[j] == r[j - 1]);
            }
        }
    }
}

/// The order in which the end-of-demo detections are reported: the
/// positions of `found` (each a tick and a player) by tick, then player.
pub fn tick_player_order(found: &Vec<(u32, u64)>) -> (r: Vec<usize>)
    ensures
        r@ == tick_player_positions(found@, found@.len() as int),
{
    let mut out: Vec<usize> = Vec::new();
    let mut i: usize = 0;
    while i < found.len()
        invariant
            i <= found@.len(),
            out@ == tick_player_positions(found@, i as int),
            forall|k: int| 0 <= k < out@.len() ==> (#[trigger] out@[k]) < i,
        decreases found.len() - i,
    {
        proof {
            lemma_tick_player_positions(found@, i as int);
        }
        let mut p: usize = 0;
        while p < out.len() && (found[out[p]].0 < found[i].0 || (found[out[p]].0 == found[i].0
            && found[out[p]].1 <= found[i].1))
            invariant
                p <= out@.len(),
                i < found@.len(),
                forall|k: int| 0 <= k < out@.len() ==> (#[trigger] out@[k]) < i,
                order_slot(found@, out@, i, p as int) == order_slot(found@, out@, i, 0),
            decreases out.len() - p,
        {
            p += 1;
        }
        out.insert(p, i);
        i += 1;
        proof {
            lemma_tick_player_positions(found@, i as int);
        }
    }
    out
}

/// The state of one spy.
pub struct SpyBackstabTracker {
    /// Whether the spy's knife is ready to backstab.
    pub ready_to_backstab: bool,
    /// When the current ready window opened.
    pub ready_start_tick: Option<u32>,
    /// The last ready window that closed: its first and last tick.
    pub last_closed_window: Option<(u32, u32)>,
    /// The spy's recent attacks, oldest first.
    pub recent_attacks: Vec<u32>,
}

impl SpyBackstabTracker {
    /// A spy with no ready window and no attacks.
    pub fn new() -> (t: Self)
        ensures
            !t.ready_to_backstab,
            t.ready_start_tick is None,
            t.last_closed_window is None,
            t.recent_attacks@ == Seq::<u32>::empty(),
    {
        SpyBackstabTracker {
            ready_to_backstab: false,
            ready_start_tick: None,
            last_closed_window: None,
            recent_attacks: Vec::new(),
        }
    }

    /// Records an attack at `tick`. The attack is kept, as the last one, and
    /// the attacks kept begin within the history's span of it.
    pub fn record_attack(&mut self, tick: u32)
        ensures
            final(self).recent_attacks@ == after_attack(old(self).recent_attacks@, tick),
            final(self).recent_attacks@.len() > 0,
            final(self).recent_attacks@.last() == tick,
            sat_sub(tick, final(self).recent_attacks@[0]) <= ATTACK_HISTORY_MAX_TICKS,
            final(self).ready_to_backstab == old(self).ready_to_backstab,
            final(self).ready_start_tick == old(self).ready_start_tick,
            final(self).last_closed_window == old(self).last_closed_window,
    {
        let n = self.recent_attacks.len();
        if !(n > 0 && self.recent_attacks[n - 1] == tick) {
            self.recent_attacks.push(tick);
        }
        let ghost b = self.recent_attacks@;
        assert(b.subrange(0, b.len() as int) == b);
        let mut k: usize = 0;
        while k < self.recent_attacks.len() && stale(tick, self.recent_attacks[k])
            invariant
                b == self.recent_attacks@,
                k <= b.len(),
                drop_stale(b.subrange(k as int, b.len() as int), tick) == drop_stale(b, tick),
            decreases b.len() - k,
        {
            assert(b.subrange(k as int, b.len() as int).drop_first() == b.subrange(k + 1, b.len() as int));
            k += 1;
        }
        assert(drop_stale(b.subrange(k as int, b.len() as int), tick) == b.subrange(k as int, b.len() as int));
        let kept = self.recent_attacks.split_off(k);
        self.recent_attacks = kept;
        proof {
            lemma_drop_stale(b, tick);
        }
    }

    /// Notes whether the knife is ready at `tick`: a window opens when it
    /// becomes ready, and closes (and is kept as the last closed one) when it
    /// stops being ready.
    pub fn update_ready_state(&mut self, is_ready: bool, tick: u32)
        ensures
            final(self).recent_attacks@ == old(self).recent_attacks@,
            is_ready && !old(self).ready_to_backstab ==> final(self).ready_to_backstab
                && final(self).ready_start_tick == Some(tick) && final(self).last_closed_window == old(
                self,
            ).last_closed_window,
            !is_ready && old(self).ready_to_backstab ==> !final(self).ready_to_backstab
                && final(self).ready_start_tick is None && final(self).last_closed_window == match old(
                self,
            ).ready_start_tick {
                Some(t) => Some((t, tick)),
                None => old(self).last_closed_window,
            },
            is_ready == old(self).ready_to_backstab ==> final(self).ready_to_backstab == old(
                self,
            ).ready_to_backstab && final(self).ready_start_tick == old(self).ready_start_tick
                && final(self).last_closed_window == old(self).last_closed_window,
    {
        if is_ready && !self.ready_to_backstab {
            self.ready_to_backstab = true;
            self.ready_start_tick = Some(tick);
        } else if !is_ready && self.ready_to_backstab {
            if let Some(t_ready) = self.ready_start_tick {
                self.last_closed_window = Some((t_ready, tick));
            }
            self.ready_to_backstab = false;
            self.ready_start_tick = None;
        }
    }

    /// Works out the timing of a backstab landed at `t_attack` and consumes
    /// the last closed window: the window the stab belongs to (the open one,
    /// or a closed one that closed at most two ticks before), the ticks from
    /// its opening to the stab, its length, and whether the spy was already
    /// swinging in the `preswing_check_ticks` (at least 0) ticks before it
    /// opened.
    pub fn backstab_timing(&mut self, t_attack: u32, preswing_check_ticks: i32) -> (r: BackstabTiming)
        requires
            timing_fits(old(self).ready_start_tick, old(self).last_closed_window, t_attack),
        ensures
            final(self).ready_to_backstab == old(self).ready_to_backstab,
            final(self).ready_start_tick == old(self).ready_start_tick,
            final(self).recent_attacks@ == old(self).recent_attacks@,
            final(self).last_closed_window is None,
            r == timing_spec(
                old(self).ready_start_tick,
                old(self).last_closed_window,
                old(self).recent_attacks@,
                t_attack,
                clamp_nonneg(preswing_check_ticks),
            ),
    {
        let window: Option<(u32, u32)> = match self.ready_start_tick {
            Some(t_r) => Some((t_r, sat_sub_u32(t_attack, t_r) + 1)),
            None => match self.last_closed_window {
                Some((t_r, t_closed)) => {
                    if sat_sub_u32(t_attack, t_closed) <= 2 {
                        Some((t_r, sat_sub_u32(t_closed, t_r) + 1))
                    } else {
                        None
                    }
                },
                None => None,
            },
        };
        self.last_closed_window = None;
        let p: u32 = if preswing_check_ticks < 0 {
            0
        } else {
            preswing_check_ticks as u32
        };
        match window {
            Some((t_r, dur)) => {
                let from = sat_sub_u32(t_r, p);
                let mut seen = false;
                let mut i: usize = 0;
                while i < self.recent_attacks.len()
                    invariant
                        i <= self.recent_attacks.len(),
                        seen == exists|j: int|
                            0 <= j < i && #[trigger] self.recent_attacks@[j] >= from && self.recent_attacks@[j]
                                < t_r,
                    decreases self.recent_attacks.len() - i,
                {
                    let a = self.recent_attacks[i];
                    if a >= from && a < t_r {
                        seen = true;
                    }
                    i += 1;
                }
                BackstabTiming {
                    ready_tick: Some(t_r),
                    reaction_ticks: Some(sat_sub_u32(t_attack, t_r)),
                    window_duration_ticks: Some(dur),
                    was_preswinging: seen,
                }
            },
            None => BackstabTiming {
                ready_tick: None,
                reaction_ticks: None,
                window_duration_ticks: None,
                was_preswinging: false,
            },
        }
    }

    /// Forgets the spy's windows and attacks.
    pub fn reset(&mut self)
        ensures
            !final(self).ready_to_backstab,
            final(self).ready_start_tick is None,
            final(self).last_closed_window is None,
            final(self).recent_attacks@ == Seq::<u32>::empty(),
    {
        self.ready_to_backstab = false;
        self.ready_start_tick = None;
        self.last_closed_window = None;
        self.recent_attacks.clear();
    }
}

} // verus!
