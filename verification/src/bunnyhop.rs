//! The bunnyhop detector's bookkeeping: ground and air ticks, hop streaks,
//! and when a streak is long enough to report. Heights, positions and speeds
//! are measured by the caller; this module is told what they showed.
use crate::backstab::sat_sub;
use crate::invalid_equip::PlayerView;
use crate::jankguard::{after_tick, times_of, JankGuard, PlayerTimes};
use crate::player::PlayerDirectory;
use std::collections::HashMap;
use vstd::prelude::*;

verus! {

/// Ticks after leaving water during which hops are still ignored.
pub const WATER_EXIT_GRACE_TICKS: u32 = 10;

/// Ticks after a spawn or teleport during which a player is not tracked.
pub const EVENT_GRACE_TICKS: u32 = 60;

/// Whether a player is tracked this tick, and if not, why.
#[derive(Clone, Copy, Debug, PartialEq, Eq, Structural)]
pub enum HopGate {
    Track,
    /// Within the grace after a spawn or teleport.
    NearEvent,
    /// In water: the water tick is recorded.
    InWater,
    /// Within the grace after leaving water.
    AfterWater,
}

/// Whether a player is tracked, and if not, why.
pub open spec fn hop_gate_spec(ticks_since_event: u32, in_water: bool, last_water_tick: Option<u32>, tick: u32) -> HopGate {
    if ticks_since_event < EVENT_GRACE_TICKS {
        HopGate::NearEvent
    } else if in_water {
        HopGate::InWater
    } else if last_water_tick matches Some(w) && sat_sub(tick, w) <= WATER_EXIT_GRACE_TICKS {
        HopGate::AfterWater
    } else {
        HopGate::Track
    }
}

/// Whether a player is tracked: not near a spawn or teleport, not in water,
/// and not just out of water. A player not tracked loses their streak.
pub fn hop_gate(ticks_since_event: u32, in_water: bool, last_water_tick: Option<u32>, tick: u32) -> (g:
    HopGate)
    ensures
        g == if ticks_since_event < EVENT_GRACE_TICKS {
            HopGate::NearEvent
        } else if in_water {
            HopGate::InWater
        } else if last_water_tick matches Some(w) && sat_sub(tick, w) <= WATER_EXIT_GRACE_TICKS {
            HopGate::AfterWater
        } else {
            HopGate::Track
        },
{
    if ticks_since_event < EVENT_GRACE_TICKS {
        return HopGate::NearEvent;
    }
    if in_water {
        return HopGate::InWater;
    }
    match last_water_tick {
        Some(w) => {
            let since = if tick >= w {
                tick - w
            } else {
                0
            };
            if since <= WATER_EXIT_GRACE_TICKS {
                HopGate::AfterWater
            } else {
                HopGate::Track
            }
        },
        None => HopGate::Track,
    }
}

/// The detector's settings (its speed floor is applied by the caller).
#[derive(Clone, Copy, Debug, PartialEq, Eq, Structural)]
pub struct BhopParams {
    /// Hops in a row that make a streak worth reporting.
    pub min_streak: i32,
    /// Air ticks a jump must last to count as a hop.
    pub min_air_ticks: i32,
    /// Ground ticks a hop may spend between jumps.
    pub max_ground_ticks: i32,
}

/// What the caller measured this tick.
#[derive(Clone, Copy, Debug, PartialEq, Eq, Structural)]
pub struct BhopInput {
    pub on_ground: bool,
    /// The height profile of a jump off the ground with no ground tick in
    /// between: moving again, having fallen from the apex to near the
    /// launch height, and now rising.
    pub bounce_shape: bool,
    /// Whether the horizontal speed reaches the speed floor.
    pub fast_enough: bool,
}

/// What the caller is to do with its own measurements after the tick.
#[derive(Clone, Copy, Debug, PartialEq, Eq, Structural)]
pub struct BhopOutcome {
    /// The launch and apex heights restart at the current height.
    pub reset_heights: bool,
    /// A hop was counted: its speed joins the streak's speeds.
    pub hop_recorded: bool,
    /// The streak broke: its speeds are forgotten.
    pub streak_cleared: bool,
    /// The streak is reported now.
    pub report: bool,
}

/// One player's hop bookkeeping.
pub struct BhopTracker {
    ground_ticks: u32,
    air_ticks: u32,
    air_ticks_at_landing: u32,
    current_streak: u32,
    hop_ground_ticks: Vec<u32>,
    last_reported_streak: u32,
    prev_on_ground: bool,
}

/// The view of a player's hop bookkeeping.
pub struct BhopModel {
    pub ground: u32,
    pub air: u32,
    pub air_at_landing: u32,
    pub streak: u32,
    /// The ground ticks of each hop of the streak.
    pub hops: Seq<u32>,
    pub last_reported: u32,
    pub prev_on_ground: bool,
}

impl View for BhopTracker {
    type V = BhopModel;

    closed spec fn view(&self) -> BhopModel {
        BhopModel {
            ground: self.ground_ticks,
            air: self.air_ticks,
            air_at_landing: self.air_ticks_at_landing,
            streak: self.current_streak,
            hops: self.hop_ground_ticks@,
            last_reported: self.last_reported_streak,
            prev_on_ground: self.prev_on_ground,
        }
    }
}

/// `x + 1`, wrapping past the top as the release build does.
pub open spec fn inc(x: u32) -> u32 {
    if x == u32::MAX {
        0
    } else {
        (x + 1) as u32
    }
}

fn inc_exec(x: u32) -> (r: u32)
    ensures
        r == inc(x),
{
    if x == u32::MAX {
        0
    } else {
        x + 1
    }
}

/// A broken streak.
pub open spec fn cleared(m: BhopModel) -> BhopModel {
    BhopModel { streak: 0, hops: Seq::empty(), last_reported: 0, ..m }
}

/// A hop with `ground` ground ticks joins the streak; whether the streak is
/// then reported: long enough, longer than the last report, and with every
/// hop within the ground-tick limit.
pub open spec fn add_hop(m: BhopModel, ground: u32, p: BhopParams) -> (BhopModel, bool) {
    let streak = inc(m.streak);
    let hops = m.hops.push(ground);
    let report = streak >= p.min_streak as u32 && streak > m.last_reported && forall|i: int|
        0 <= i < hops.len() ==> #[trigger] hops[i] <= p.max_ground_ticks as u32;
    (
        BhopModel {
            streak,
            hops,
            last_reported: if report {
                streak
            } else {
                m.last_reported
            },
            ..m
        },
        report,
    )
}

/// One tick of a tracked player.
pub open spec fn bhop_step(m: BhopModel, p: BhopParams, input: BhopInput) -> (BhopModel, BhopOutcome) {
    let none = BhopOutcome {
        reset_heights: false,
        hop_recorded: false,
        streak_cleared: false,
        report: false,
    };
    let (m2, out) = if input.on_ground {
        if !m.prev_on_ground {
            (
                BhopModel { air_at_landing: m.air, ground: 1, air: 0, ..m },
                BhopOutcome { reset_heights: true, ..none },
            )
        } else {
            let g = inc(m.ground);
            let walked = g > ((if p.max_ground_ticks < 1 {
                1
            } else {
                p.max_ground_ticks
            }) + 3) as u32;
            if walked {
                (
                    cleared(BhopModel { ground: g, ..m }),
                    BhopOutcome { reset_heights: true, streak_cleared: true, ..none },
                )
            } else {
                (BhopModel { ground: g, ..m }, BhopOutcome { reset_heights: true, ..none })
            }
        }
    } else if input.bounce_shape && !m.prev_on_ground && m.air >= p.min_air_ticks as u32 {
        if 0 <= p.max_ground_ticks && input.fast_enough {
            let (h, report) = add_hop(m, 0, p);
            (
                BhopModel { air_at_landing: m.air, air: 1, ground: 0, ..h },
                BhopOutcome { reset_heights: true, hop_recorded: true, report, ..none },
            )
        } else {
            (cleared(m), BhopOutcome { streak_cleared: true, ..none })
        }
    } else if m.prev_on_ground {
        let hopped = m.ground;
        let at_landing = m.air_at_landing;
        let m1 = BhopModel { ground: 0, air: 1, ..m };
        if at_landing >= p.min_air_ticks as u32 && input.fast_enough {
            if hopped as i32 <= p.max_ground_ticks {
                let (h, report) = add_hop(m1, hopped, p);
                (h, BhopOutcome { reset_heights: true, hop_recorded: true, report, ..none })
            } else {
                (cleared(m1), BhopOutcome { reset_heights: true, streak_cleared: true, ..none })
            }
        } else {
            (m1, BhopOutcome { reset_heights: true, ..none })
        }
    } else {
        (BhopModel { air: inc(m.air), ..m }, none)
    };
    (BhopModel { prev_on_ground: input.on_ground, ..m2 }, out)
}

impl BhopTracker {
    /// A player just starting to be tracked.
    pub fn new() -> (t: Self)
        ensures
            t@ == (BhopModel {
                ground: 0,
                air: 0,
                air_at_landing: 0,
                streak: 0,
                hops: Seq::empty(),
                last_reported: 0,
                prev_on_ground: false,
            }),
    {
        BhopTracker {
            ground_ticks: 0,
            air_ticks: 0,
            air_ticks_at_landing: 0,
            current_streak: 0,
            hop_ground_ticks: Vec::new(),
            last_reported_streak: 0,
            prev_on_ground: false,
        }
    }

    /// The current streak.
    pub fn streak(&self) -> (s: u32)
        ensures
            s == self@.streak,
    {
        self.current_streak
    }

    /// The ground ticks of each hop of the current streak.
    pub fn hop_ground_ticks(&self) -> (h: Vec<u32>)
        ensures
            h@ == self@.hops,
    {
        let mut h: Vec<u32> = Vec::new();
        let mut i: usize = 0;
        while i < self.hop_ground_ticks.len()
            invariant
                i <= self.hop_ground_ticks@.len(),
                h@ == self.hop_ground_ticks@.subrange(0, i as int),
            decreases self.hop_ground_ticks.len() - i,
        {
            h.push(self.hop_ground_ticks[i]);
            i += 1;
        }
        assert(self.hop_ground_ticks@.subrange(0, self.hop_ground_ticks@.len() as int)
            == self.hop_ground_ticks@);
        h
    }

    fn clear_streak(&mut self)
        ensures
            final(self)@ == cleared(old(self)@),
    {
        self.current_streak = 0;
        self.hop_ground_ticks.clear();
        self.last_reported_streak = 0;
    }

    fn add_hop_exec(&mut self, ground: u32, p: BhopParams) -> (report: bool)
        ensures
            (final(self)@, report) == add_hop(old(self)@, ground, p),
    {
        self.current_streak = inc_exec(self.current_streak);
        self.hop_ground_ticks.push(ground);
        let limit = p.max_ground_ticks as u32;
        let mut all_within = true;
        let mut i: usize = 0;
        while i < self.hop_ground_ticks.len()
            invariant
                i <= self.hop_ground_ticks@.len(),
                limit == p.max_ground_ticks as u32,
                all_within == forall|k: int| 0 <= k < i ==> #[trigger] self.hop_ground_ticks@[k] <= limit,
            decreases self.hop_ground_ticks.len() - i,
        {
            if self.hop_ground_ticks[i] > limit {
                all_within = false;
            }
            i += 1;
        }
        let report = self.current_streak >= p.min_streak as u32 && self.current_streak
            > self.last_reported_streak && all_within;
        if report {
            self.last_reported_streak = self.current_streak;
        }
        report
    }

    /// One tick of a tracked player: counts ground and air ticks, counts a
    /// hop at each quick enough takeoff (or ground bounce) after a long
    /// enough jump, breaks the streak on walking or a slow or long-grounded
    /// hop, and reports a streak each time it grows past the last report.
    pub fn step(&mut self, p: BhopParams, input: BhopInput) -> (out: BhopOutcome)
        requires
            p.max_ground_ticks < i32::MAX - 2,
        ensures
            (final(self)@, out) == bhop_step(old(self)@, p, input),
    {
        let none = BhopOutcome {
            reset_heights: false,
            hop_recorded: false,
            streak_cleared: false,
            report: false,
        };
        let out = if input.on_ground {
            if !self.prev_on_ground {
                self.air_ticks_at_landing = self.air_ticks;
                self.ground_ticks = 1;
                self.air_ticks = 0;
                BhopOutcome { reset_heights: true, ..none }
            } else {
                self.ground_ticks = inc_exec(self.ground_ticks);
                let floor: i32 = if p.max_ground_ticks < 1 {
                    1
                } else {
                    p.max_ground_ticks
                };
                if self.ground_ticks > (floor + 3) as u32 {
                    self.clear_streak();
                    BhopOutcome { reset_heights: true, streak_cleared: true, ..none }
                } else {
                    BhopOutcome { reset_heights: true, ..none }
                }
            }
        } else if input.bounce_shape && !self.prev_on_ground && self.air_ticks
            >= p.min_air_ticks as u32 {
            if 0 <= p.max_ground_ticks && input.fast_enough {
                let air = self.air_ticks;
                let report = self.add_hop_exec(0, p);
                self.air_ticks_at_landing = air;
                self.air_ticks = 1;
                self.ground_ticks = 0;
                BhopOutcome { reset_heights: true, hop_recorded: true, report, ..none }
            } else {
                self.clear_streak();
                BhopOutcome { streak_cleared: true, ..none }
            }
        } else if self.prev_on_ground {
            let hopped = self.ground_ticks;
            let at_landing = self.air_ticks_at_landing;
            self.ground_ticks = 0;
            self.air_ticks = 1;
            if at_landing >= p.min_air_ticks as u32 && input.fast_enough {
                if hopped as i32 <= p.max_ground_ticks {
                    let report = self.add_hop_exec(hopped, p);
                    BhopOutcome { reset_heights: true, hop_recorded: true, report, ..none }
                } else {
                    self.clear_streak();
                    BhopOutcome { reset_heights: true, streak_cleared: true, ..none }
                }
            } else {
                BhopOutcome { reset_heights: true, ..none }
            }
        } else {
            self.air_ticks = inc_exec(self.air_ticks);
            none
        };
        self.prev_on_ground = input.on_ground;
        out
    }
}

/// A streak is reported only when it has grown: each report names a longer
/// streak than the last one reported, and at least the minimum.
pub proof fn lemma_reports_grow(m: BhopModel, p: BhopParams, input: BhopInput)
    ensures
        bhop_step(m, p, input).1.report ==> {
            &&& bhop_step(m, p, input).0.last_reported == bhop_step(m, p, input).0.streak
            &&& bhop_step(m, p, input).0.streak > m.last_reported
            &&& bhop_step(m, p, input).0.streak >= p.min_streak as u32
        },
{
}

/// The detector's state across players: each tracked player's hops, when
/// each player was last in water, and their spawn, teleport and fire times.
pub struct BunnyHopModel {
    pub params: BhopParams,
    pub trackers: Map<u64, BhopModel>,
    pub last_water: Map<u64, u32>,
    pub times: Map<u64, PlayerTimes>,
    pub latest: u32,
}

/// A player seen for the first time.
pub open spec fn fresh_tracker() -> BhopModel {
    BhopModel {
        ground: 0,
        air: 0,
        air_at_landing: 0,
        streak: 0,
        hops: Seq::empty(),
        last_reported: 0,
        prev_on_ground: false,
    }
}

/// The ticks since a player's last spawn or teleport, whichever is later.
pub open spec fn ticks_since_event(times: Map<u64, PlayerTimes>, sid: u64, tick: u32) -> u32 {
    let t = times_of(times, sid);
    let a = (tick - t.last_teleport) as u32;
    let b = (tick - t.last_spawn) as u32;
    if a < b {
        a
    } else {
        b
    }
}

/// One tick of one followed player: whether they are tracked, and if so
/// their hop step; a player not tracked loses their hops, and a player in
/// water is remembered as in water at `tick`.
pub open spec fn bunnyhop_player(
    m: BunnyHopModel,
    tick: u32,
    sid: u64,
    in_water: bool,
    input: BhopInput,
) -> (BunnyHopModel, HopGate, Option<BhopOutcome>) {
    let lw = if m.last_water.contains_key(sid) {
        Some(m.last_water[sid])
    } else {
        None
    };
    let gate = hop_gate_spec(ticks_since_event(m.times, sid, tick), in_water, lw, tick);
    let m1 = BunnyHopModel { latest: tick, ..m };
    match gate {
        HopGate::Track => {
            let tr = if m.trackers.contains_key(sid) {
                m.trackers[sid]
            } else {
                fresh_tracker()
            };
            let (t2, out) = bhop_step(tr, m.params, input);
            (BunnyHopModel { trackers: m.trackers.insert(sid, t2), ..m1 }, gate, Some(out))
        },
        HopGate::InWater => (
            BunnyHopModel {
                trackers: m.trackers.remove(sid),
                last_water: m.last_water.insert(sid, tick),
                ..m1
            },
            gate,
            None,
        ),
        _ => (BunnyHopModel { trackers: m.trackers.remove(sid), ..m1 }, gate, None),
    }
}

/// The bunny-hop detector over all players.
pub struct BunnyHop {
    params: BhopParams,
    trackers: HashMap<u64, BhopTracker>,
    last_water: HashMap<u64, u32>,
    jg: JankGuard,
    latest: u32,
}

impl View for BunnyHop {
    type V = BunnyHopModel;

    closed spec fn view(&self) -> BunnyHopModel {
        BunnyHopModel {
            params: self.params,
            trackers: self.trackers@.map_values(|t: BhopTracker| t@),
            last_water: self.last_water@,
            times: self.jg@,
            latest: self.latest,
        }
    }
}

/// Every recorded time is no later than `latest`.
pub open spec fn times_within(times: Map<u64, PlayerTimes>, latest: u32) -> bool {
    forall|sid: u64|
        #[trigger] times.contains_key(sid) ==> times[sid].last_spawn <= latest && times[sid].last_teleport
            <= latest && times[sid].last_fire <= latest
}

impl BunnyHop {
    /// The state is consistent: no time lies ahead of the latest tick, and
    /// the ground-tick limit leaves room for the walking margin.
    pub open spec fn wf(&self) -> bool {
        &&& times_within(self@.times, self@.latest)
        &&& self@.params.max_ground_ticks < i32::MAX - 2
    }

    pub fn new(params: BhopParams) -> (b: Self)
        requires
            params.max_ground_ticks < i32::MAX - 2,
        ensures
            b.wf(),
            b@.params == params,
            b@.trackers == Map::<u64, BhopModel>::empty(),
            b@.last_water == Map::<u64, u32>::empty(),
            b@.times == Map::<u64, PlayerTimes>::empty(),
            b@.latest == 0,
    {
        let b = BunnyHop {
            params,
            trackers: HashMap::new(),
            last_water: HashMap::new(),
            jg: JankGuard::new(),
            latest: 0,
        };
        assert(b@.trackers =~= Map::<u64, BhopModel>::empty());
        b
    }

    pub fn algorithm_name(&self) -> (s: &'static str)
        ensures
            s@ == "fidoo/bunnyhop"@,
    {
        "fidoo/bunnyhop"
    }

    /// A player spawned, or got a new loadout, at `tick`.
    pub fn on_spawn(&mut self, dir: &PlayerDirectory, user_id: u16, tick: u32)
        requires
            old(self).wf(),
            old(self)@.latest <= tick,
        ensures
            final(self).wf(),
            final(self)@ == (BunnyHopModel {
                times: if dir@.ids.contains_key(user_id) {
                    let sid = dir@.ids[user_id];
                    old(self)@.times.insert(sid, PlayerTimes { last_spawn: tick, ..times_of(old(self)@.times, sid) })
                } else {
                    old(self)@.times
                },
                latest: tick,
                ..old(self)@
            }),
    {
        self.jg.on_spawn(dir, user_id, tick);
        self.latest = tick;
    }

    /// A player went through a teleporter at `tick`.
    pub fn on_teleported(&mut self, dir: &PlayerDirectory, user_id: u16, tick: u32)
        requires
            old(self).wf(),
            old(self)@.latest <= tick,
        ensures
            final(self).wf(),
            final(self)@ == (BunnyHopModel {
                times: if dir@.ids.contains_key(user_id) {
                    let sid = dir@.ids[user_id];
                    old(self)@.times.insert(sid, PlayerTimes { last_teleport: tick, ..times_of(old(self)@.times, sid) })
                } else {
                    old(self)@.times
                },
                latest: tick,
                ..old(self)@
            }),
    {
        self.jg.on_teleported(dir, user_id, tick);
        self.latest = tick;
    }

    /// The tick's players, each beside whether it moved more than 256 units
    /// since the last tick: those followed that did teleported at `tick`.
    /// `false`, with nothing changed, where a followed player's Steam3 id
    /// does not read.
    pub fn on_moves(&mut self, tick: u32, players: &Vec<(PlayerView, bool)>) -> (ok: bool)
        requires
            old(self).wf(),
            old(self)@.latest <= tick,
        ensures
            final(self).wf(),
            ok ==> final(self)@ == (BunnyHopModel {
                times: after_tick(old(self)@.times, tick, players@, players@.len() as int),
                latest: tick,
                ..old(self)@
            }),
            !ok ==> final(self)@ == (BunnyHopModel { latest: tick, ..old(self)@ }),
    {
        self.latest = tick;
        let ok = self.jg.try_on_tick(tick, players);
        proof {
            if ok {
                lemma_after_tick_within(old(self)@.times, tick, players@, players@.len() as int);
            }
        }
        ok
    }

    /// One tick of a followed player `sid`: whether they are in water and
    /// what was measured of their movement. Gives whether they are tracked,
    /// and where they are, their hop step's outcome.
    pub fn on_player(&mut self, tick: u32, sid: u64, in_water: bool, input: BhopInput) -> (r: (
        HopGate,
        Option<BhopOutcome>,
    ))
        requires
            old(self).wf(),
            old(self)@.latest <= tick,
        ensures
            final(self).wf(),
            (final(self)@, r.0, r.1) == bunnyhop_player(old(self)@, tick, sid, in_water, input),
    {
        broadcast use vstd::std_specs::hash::group_hash_axioms;

        let ghost m = self@;
        let tp = self.jg.teleported(sid, tick);
        let sp = self.jg.spawned(sid, tick);
        let since = if tp < sp {
            tp
        } else {
            sp
        };
        let lw = match self.last_water.get(&sid) {
            Some(w) => Some(*w),
            None => None,
        };
        let gate = hop_gate(since, in_water, lw, tick);
        self.latest = tick;
        match gate {
            HopGate::Track => {
                let mut tr = match self.trackers.remove(&sid) {
                    Some(t) => t,
                    None => BhopTracker::new(),
                };
                let out = tr.step(self.params, input);
                self.trackers.insert(sid, tr);
                proof {
                    assert(self@.trackers =~= m.trackers.insert(sid, tr@));
                }
                (gate, Some(out))
            },
            HopGate::InWater => {
                self.trackers.remove(&sid);
                self.last_water.insert(sid, tick);
                proof {
                    assert(self@.trackers =~= m.trackers.remove(sid));
                }
                (gate, None)
            },
            _ => {
                self.trackers.remove(&sid);
                proof {
                    assert(self@.trackers =~= m.trackers.remove(sid));
                }
                (gate, None)
            },
        }
    }

    /// The current streak of player `sid`, 0 where they are not tracked.
    pub fn streak_of(&self, sid: u64) -> (s: u32)
        ensures
            s == if self@.trackers.contains_key(sid) {
                self@.trackers[sid].streak
            } else {
                0
            },
    {
        broadcast use vstd::std_specs::hash::group_hash_axioms;

        match self.trackers.get(&sid) {
            Some(t) => t.streak(),
            None => 0,
        }
    }

    /// The ground ticks of each hop of player `sid`'s streak.
    pub fn hops_of(&self, sid: u64) -> (h: Vec<u32>)
        ensures
            h@ == if self@.trackers.contains_key(sid) {
                self@.trackers[sid].hops
            } else {
                Seq::empty()
            },
    {
        broadcast use vstd::std_specs::hash::group_hash_axioms;

        match self.trackers.get(&sid) {
            Some(t) => t.hop_ground_ticks(),
            None => Vec::new(),
        }
    }
}

proof fn lemma_after_tick_within(m: Map<u64, PlayerTimes>, tick: u32, players: Seq<(PlayerView, bool)>, n: int)
    requires
        forall|sid: u64|
            #[trigger] m.contains_key(sid) ==> m[sid].last_spawn <= tick && m[sid].last_teleport <= tick
                && m[sid].last_fire <= tick,
    ensures
        times_within(after_tick(m, tick, players, n), tick),
    decreases n,
{
    if n > 0 {
        lemma_after_tick_within(m, tick, players, n - 1);
    }
}

} // verus!
