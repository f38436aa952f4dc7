//! The silent-aim detector's bookkeeping for one player: how long they have
//! been in view, whether their angle history may be searched this tick, and
//! the suspicion count that minor-drift spikes build up. The angle search
//! itself measures view angles and positions, which the caller does.
use crate::backstab::{sat_sub, sat_sub_u32};
use vstd::prelude::*;

verus! {

/// A gap in updates, in ticks, after which a player's history restarts.
pub const MAX_UPDATE_GAP_TICKS: u32 = 16;

/// Ticks after a spawn or teleport during which a player is not searched.
pub const EVENT_IMMUNITY_TICKS: u32 = 60;

/// What one player's bookkeeping holds.
#[derive(Clone, Copy, Debug, PartialEq, Eq, Structural)]
pub struct AimTracker {
    /// Consecutive ticks in view and alive.
    pub pvs_ticks: u32,
    /// The last tick on which the player was seen in view.
    pub last_update_tick: u32,
    /// Minor-drift spikes seen since the last flag or reset.
    pub suspicion_count: u32,
    /// The tick of the last minor-drift spike.
    pub last_suspicious_tick: u32,
}

/// What the caller does with a player this tick.
#[derive(Clone, Copy, Debug, PartialEq, Eq, Structural)]
pub enum AimGate {
    /// Out of view or dead: the angle history is cleared.
    NotTracked,
    /// Within the immunity after a spawn or teleport: the history is
    /// cleared, and, on the event's own tick, the player's detections of
    /// the last `EVENT_IMMUNITY_TICKS` ticks are withdrawn.
    Immune { withdraw_recent: bool },
    /// Not yet in view long enough: the history is cleared.
    WarmingUp,
    /// The tick's angles are recorded and searched; the history is cleared
    /// first after a gap in updates.
    Search { restart_history: bool },
}

/// `v`, or 1 where it is smaller.
pub open spec fn at_least_one(v: i32) -> u32 {
    if v < 1 {
        1
    } else {
        v as u32
    }
}

fn at_least_one_exec(v: i32) -> (r: u32)
    ensures
        r == at_least_one(v),
{
    if v < 1 {
        1
    } else {
        v as u32
    }
}

/// Whether an update at `tick` follows the last one after too long a gap.
pub open spec fn update_gap(t: AimTracker, tick: u32) -> bool {
    t.last_update_tick > 0 && sat_sub(tick, t.last_update_tick) > MAX_UPDATE_GAP_TICKS
}

/// The bookkeeping and decision for a player at `tick`, given whether they
/// are in view and alive, the ticks since their last spawn or teleport, and
/// the detector's `min_pvs_ticks` and `clean_ticks_to_reset` (each at least
/// 1).
pub open spec fn gate_spec(
    t: AimTracker,
    tick: u32,
    in_view_alive: bool,
    ticks_since_event: u32,
    min_pvs_ticks: i32,
    clean_ticks_to_reset: i32,
) -> (AimTracker, AimGate) {
    if !in_view_alive {
        (AimTracker { pvs_ticks: 0, ..t }, AimGate::NotTracked)
    } else {
        let gap = update_gap(t, tick);
        let pvs = (if gap {
            0
        } else {
            t.pvs_ticks as int
        }) + 1;
        let t1 = AimTracker { pvs_ticks: pvs as u32, last_update_tick: tick, ..t };
        if ticks_since_event < EVENT_IMMUNITY_TICKS {
            (t1, AimGate::Immune { withdraw_recent: ticks_since_event == 0 })
        } else {
            let t2 = if t1.last_suspicious_tick > 0 && sat_sub(tick, t1.last_suspicious_tick) >= at_least_one(
                clean_ticks_to_reset,
            ) {
                AimTracker { suspicion_count: 0, ..t1 }
            } else {
                t1
            };
            if t2.pvs_ticks < at_least_one(min_pvs_ticks) {
                (t2, AimGate::WarmingUp)
            } else {
                (t2, AimGate::Search { restart_history: gap })
            }
        }
    }
}

/// The count of a spike and whether it flags the player: an exact
/// snapback flags at once; a minor drift adds one to the suspicion count,
/// notes `tick`, and flags once the count reaches `suspicion_threshold` (at
/// least 1). A flag resets the count.
pub open spec fn spike_spec(t: AimTracker, tick: u32, is_exact: bool, suspicion_threshold: i32) -> (
    AimTracker,
    SpikeOutcome,
) {
    let thr = at_least_one(suspicion_threshold);
    let (t1, current) = if is_exact {
        (t, thr)
    } else {
        let c = (t.suspicion_count + 1) as u32;
        (AimTracker { suspicion_count: c, last_suspicious_tick: tick, ..t }, c)
    };
    if current >= thr {
        (AimTracker { suspicion_count: 0, ..t1 }, SpikeOutcome { flagged: true, suspicion: current })
    } else {
        (t1, SpikeOutcome { flagged: false, suspicion: current })
    }
}

/// What a spike came to.
#[derive(Clone, Copy, Debug, PartialEq, Eq, Structural)]
pub struct SpikeOutcome {
    /// Whether the player is flagged (and their history is cleared).
    pub flagged: bool,
    /// The suspicion the spike was judged at.
    pub suspicion: u32,
}

/// Whether a detection of `det_player` at `det_tick` survives the withdrawal
/// made when `player` spawns or teleports at `tick`: it is another player's,
/// or older than the immunity.
pub open spec fn survives_withdrawal_spec(det_player: u64, det_tick: u32, player: u64, tick: u32) -> bool {
    det_player != player || tick - det_tick > EVENT_IMMUNITY_TICKS
}

/// Whether a detection survives a player's spawn or teleport at `tick`.
pub fn survives_withdrawal(det_player: u64, det_tick: u32, player: u64, tick: u32) -> (b: bool)
    requires
        det_player == player ==> det_tick <= tick,
    ensures
        b == survives_withdrawal_spec(det_player, det_tick, player, tick),
{
    det_player != player || tick - det_tick > EVENT_IMMUNITY_TICKS
}

impl AimTracker {
    /// A player not seen yet.
    pub fn new() -> (t: Self)
        ensures
            t == (AimTracker { pvs_ticks: 0, last_update_tick: 0, suspicion_count: 0, last_suspicious_tick: 0 }),
    {
        AimTracker { pvs_ticks: 0, last_update_tick: 0, suspicion_count: 0, last_suspicious_tick: 0 }
    }

    /// Updates the player's bookkeeping at `tick` and says what the caller
    /// does with their angles.
    pub fn gate(
        &mut self,
        tick: u32,
        in_view_alive: bool,
        ticks_since_event: u32,
        min_pvs_ticks: i32,
        clean_ticks_to_reset: i32,
    ) -> (g: AimGate)
        requires
            in_view_alive && !update_gap(*old(self), tick) ==> old(self).pvs_ticks < u32::MAX,
        ensures
            (*final(self), g) == gate_spec(
                *old(self),
                tick,
                in_view_alive,
                ticks_since_event,
                min_pvs_ticks,
                clean_ticks_to_reset,
            ),
    {
        if !in_view_alive {
            self.pvs_ticks = 0;
            return AimGate::NotTracked;
        }
        let gap = self.last_update_tick > 0 && sat_sub_u32(tick, self.last_update_tick) > MAX_UPDATE_GAP_TICKS;
        if gap {
            self.pvs_ticks = 0;
        }
        self.pvs_ticks = self.pvs_ticks + 1;
        self.last_update_tick = tick;
        if ticks_since_event < EVENT_IMMUNITY_TICKS {
            return AimGate::Immune { withdraw_recent: ticks_since_event == 0 };
        }
        if self.last_suspicious_tick > 0 && sat_sub_u32(tick, self.last_suspicious_tick) >= at_least_one_exec(
            clean_ticks_to_reset,
        ) {
            self.suspicion_count = 0;
        }
        if self.pvs_ticks < at_least_one_exec(min_pvs_ticks) {
            AimGate::WarmingUp
        } else {
            AimGate::Search { restart_history: gap }
        }
    }

    /// Counts a spike found at `tick` and says whether it flags the player.
    pub fn spike(&mut self, tick: u32, is_exact: bool, suspicion_threshold: i32) -> (o: SpikeOutcome)
        requires
            !is_exact ==> old(self).suspicion_count < u32::MAX,
        ensures
            (*final(self), o) == spike_spec(*old(self), tick, is_exact, suspicion_threshold),
            o.flagged ==> final(self).suspicion_count == 0,
            !o.flagged ==> !is_exact && final(self).suspicion_count == old(self).suspicion_count + 1,
    {
        let thr = at_least_one_exec(suspicion_threshold);
        let current = if is_exact {
            thr
        } else {
            self.suspicion_count = self.suspicion_count + 1;
            self.last_suspicious_tick = tick;
            self.suspicion_count
        };
        if current >= thr {
            self.suspicion_count = 0;
            SpikeOutcome { flagged: true, suspicion: current }
        } else {
            SpikeOutcome { flagged: false, suspicion: current }
        }
    }
}

/// Minor drift flags a player only on the `suspicion_threshold`-th spike in
/// a row: from a count of zero, `k` drift spikes short of the threshold flag
/// nothing and leave the count at `k`.
pub proof fn lemma_drift_below_threshold(t: AimTracker, tick: u32, suspicion_threshold: i32)
    requires
        t.suspicion_count + 1 < at_least_one(suspicion_threshold),
    ensures
        !spike_spec(t, tick, false, suspicion_threshold).1.flagged,
        spike_spec(t, tick, false, suspicion_threshold).0.suspicion_count == t.suspicion_count + 1,
{
}

/// An exact snapback always flags, whatever the count.
pub proof fn lemma_exact_flags(t: AimTracker, tick: u32, suspicion_threshold: i32)
    ensures
        spike_spec(t, tick, true, suspicion_threshold).1.flagged,
        spike_spec(t, tick, true, suspicion_threshold).0.suspicion_count == 0,
{
}

} // verus!
