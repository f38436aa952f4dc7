//! The double-tap detector: two hits on one victim with one weapon, fewer
//! ticks apart than the weapon can fire.
use crate::invalid_equip::PlayerView;
use crate::player::PlayerClass;
use crate::steamid::{parse_steam3, steam3_id64};
use crate::weapons::is_cleaver_or_wrap_assassin;
use std::collections::HashMap;
use vstd::prelude::*;

verus! {

/// The detector's settings.
#[derive(Clone, Copy, Debug, PartialEq, Eq, Structural)]
pub struct DoubleTapParams {
    /// Only judge attackers in the recording player's view.
    pub assert_pvs: bool,
    /// The fewest ticks between two shots of the Scout's primary.
    pub min_tick_scout: i32,
    /// The fewest ticks between two shots of the Heavy's primary.
    pub min_tick_heavy: i32,
}

impl DoubleTapParams {
    pub fn defaults() -> (p: Self)
        ensures
            p == (DoubleTapParams { assert_pvs: true, min_tick_scout: 17, min_tick_heavy: 3 }),
    {
        DoubleTapParams { assert_pvs: true, min_tick_scout: 17, min_tick_heavy: 3 }
    }
}

/// A hit, as the game's `player_hurt` event reports it.
#[derive(Clone, Copy, Debug, PartialEq, Eq, Structural)]
pub struct Hurt {
    pub attacker: u32,
    pub victim: u32,
    pub weapon_id: u32,
    pub damage: u32,
}

/// The last hit an attacker landed.
#[derive(Clone, Copy, Debug, PartialEq, Eq, Structural)]
pub struct Shot {
    pub tick: u32,
    pub weapon: u32,
    pub victim: u32,
    pub damage: u32,
}

/// Two hits too close together.
#[derive(Clone, Copy, Debug, PartialEq, Eq, Structural)]
pub struct DoubleTapFinding {
    pub tick: u32,
    pub player: u64,
    pub class: PlayerClass,
    pub tick_1: u32,
    pub tick_2: u32,
    pub tick_diff: u32,
    pub victim: u32,
    pub weapon_id: u32,
    pub damage_1: u32,
    pub damage_2: u32,
}

/// The SteamID64 a player's info gives: its Steam3 id read, or 0 where the
/// id does not read.
pub open spec fn info_sid(p: PlayerView) -> u64 {
    match p.steam_id {
        Some(s) => match steam3_id64(s@) {
            Some(id) => id,
            None => 0,
        },
        None => 0,
    }
}

/// The SteamID64s of the attacker and the victim among the first `n`
/// players with info: the last player holding each user id wins, and a
/// player counts as the attacker before the victim.
pub open spec fn hit_sids(players: Seq<PlayerView>, n: int, attacker: u32, victim: u32) -> (u64, u64)
    decreases n,
{
    if n <= 0 {
        (0, 0)
    } else {
        let (sa, sv) = hit_sids(players, n - 1, attacker, victim);
        let p = players[n - 1];
        match p.user_id {
            Some(u) => if u == attacker {
                (info_sid(p), sv)
            } else if u == victim {
                (sa, info_sid(p))
            } else {
                (sa, sv)
            },
            None => (sa, sv),
        }
    }
}

/// The first player from `from` on whose info gives SteamID64 `sid`.
pub open spec fn player_with_sid(players: Seq<PlayerView>, sid: u64, from: int) -> Option<PlayerView>
    decreases players.len() - from,
{
    if from < 0 || from >= players.len() {
        None
    } else if players[from].user_id is Some && info_sid(players[from]) == sid {
        Some(players[from])
    } else {
        player_with_sid(players, sid, from + 1)
    }
}

/// The fewest ticks between two shots of a weapon the detector judges.
pub open spec fn min_gap(params: DoubleTapParams, weapon: u32) -> Option<u32> {
    if weapon == 16 {
        Some(params.min_tick_scout as u32)
    } else if weapon == 18 {
        Some(params.min_tick_heavy as u32)
    } else {
        None
    }
}

/// What the detector's state is.
pub struct DoubleTapModel {
    pub params: DoubleTapParams,
    pub shots: Map<u64, Shot>,
    pub latest: u32,
}

/// What one hit does: the shots remembered afterwards, and what is reported.
pub open spec fn double_tap_step(
    m: DoubleTapModel,
    params: DoubleTapParams,
    tick: u32,
    hurt: Hurt,
    players: Seq<PlayerView>,
) -> (Map<u64, Shot>, Option<DoubleTapFinding>) {
    let (sa, sv) = hit_sids(players, players.len() as int, hurt.attacker, hurt.victim);
    if (hurt.weapon_id == 16 && 3 <= hurt.damage <= 8) || (hurt.weapon_id == 16 && hurt.damage == 50) {
        (m.shots, None)
    } else if sa == 0 || sv == 0 {
        (m.shots, None)
    } else {
        match player_with_sid(players, sa, 0) {
            None => (m.shots, None),
            Some(attacker) => if params.assert_pvs && !attacker.in_pvs {
                (m.shots, None)
            } else {
                let shot = Shot { tick, weapon: hurt.weapon_id, victim: hurt.victim, damage: hurt.damage };
                let shots = m.shots.insert(sa, shot);
                if !m.shots.contains_key(sa) {
                    (shots, None)
                } else {
                    let past = m.shots[sa];
                    match min_gap(params, hurt.weapon_id) {
                        None => (shots, None),
                        Some(gap) => if past.weapon != hurt.weapon_id || past.victim != hurt.victim {
                            (shots, None)
                        } else {
                            let diff = (tick - past.tick) as u32;
                            if diff < gap && diff > 0 {
                                (
                                    shots,
                                    Some(
                                        DoubleTapFinding {
                                            tick,
                                            player: sa,
                                            class: attacker.class,
                                            tick_1: past.tick,
                                            tick_2: tick,
                                            tick_diff: diff,
                                            victim: hurt.victim,
                                            weapon_id: hurt.weapon_id,
                                            damage_1: past.damage,
                                            damage_2: hurt.damage,
                                        },
                                    ),
                                )
                            } else {
                                (shots, None)
                            }
                        },
                    }
                }
            },
        }
    }
}

/// The detector: the last hit of each attacker.
pub struct DoubleTap {
    params: DoubleTapParams,
    shots: HashMap<u64, Shot>,
    latest: u32,
}

impl View for DoubleTap {
    type V = DoubleTapModel;

    closed spec fn view(&self) -> DoubleTapModel {
        DoubleTapModel { params: self.params, shots: self.shots@, latest: self.latest }
    }
}

impl DoubleTap {
    /// Every remembered shot is no later than the latest tick seen.
    pub closed spec fn wf(&self) -> bool {
        forall|sid: u64| #[trigger] self.shots@.contains_key(sid) ==> self.shots@[sid].tick <= self.latest
    }

    pub fn new(params: DoubleTapParams) -> (d: Self)
        ensures
            d.wf(),
            d@.params == params,
            d@.shots == Map::<u64, Shot>::empty(),
            d@.latest == 0,
    {
        DoubleTap { params, shots: HashMap::new(), latest: 0 }
    }

    /// The detector's settings.
    pub fn params(&self) -> (p: DoubleTapParams)
        ensures
            p == self@.params,
    {
        self.params
    }

    /// Replaces the detector's settings.
    pub fn set_params(&mut self, params: DoubleTapParams)
        ensures
            final(self)@ == (DoubleTapModel { params, ..old(self)@ }),
            old(self).wf() ==> final(self).wf(),
    {
        self.params = params;
    }

    pub fn algorithm_name(&self) -> (s: &'static str)
        ensures
            s@ == "doubletap"@,
    {
        "doubletap"
    }

    /// Judges a hit at `tick`, which is no earlier than the ticks already
    /// seen, with the players as the tick's game state shows them.
    pub fn on_player_hurt(&mut self, tick: u32, hurt: Hurt, players: &Vec<PlayerView>) -> (r: Option<
        DoubleTapFinding,
    >)
        requires
            old(self).wf(),
            old(self)@.latest <= tick,
        ensures
            final(self).wf(),
            final(self)@.params == old(self)@.params,
            final(self)@.latest == tick,
            (final(self)@.shots, r) == double_tap_step(old(self)@, old(self)@.params, tick, hurt, players@),
            r matches Some(f) ==> f.tick_2 == tick && f.tick_1 < f.tick_2 && f.tick_diff == f.tick_2
                - f.tick_1,
    {
        broadcast use vstd::std_specs::hash::group_hash_axioms;

        let ghost m = self@;
        self.latest = tick;
        proof {
            assert forall|sid: u64| #[trigger] self.shots@.contains_key(sid) implies self.shots@[sid].tick
                <= self.latest by {}
        }
        if is_cleaver_or_wrap_assassin(hurt.weapon_id, hurt.damage) {
            return None;
        }
        let mut sa: u64 = 0;
        let mut sv: u64 = 0;
        let mut i: usize = 0;
        while i < players.len()
            invariant
                i <= players@.len(),
                (sa, sv) == hit_sids(players@, i as int, hurt.attacker, hurt.victim),
            decreases players.len() - i,
        {
            match players[i].user_id {
                Some(u) => {
                    if u == hurt.attacker {
                        sa = sid_of(&players[i]);
                    } else if u == hurt.victim {
                        sv = sid_of(&players[i]);
                    }
                },
                None => {},
            }
            i += 1;
        }
        if sa == 0 || sv == 0 {
            return None;
        }
        let mut j: usize = 0;
        while j < players.len() && !(players[j].user_id.is_some() && sid_of(&players[j]) == sa)
            invariant
                j <= players@.len(),
                player_with_sid(players@, sa, j as int) == player_with_sid(players@, sa, 0),
            decreases players.len() - j,
        {
            j += 1;
        }
        if j == players.len() {
            return None;
        }
        let attacker = &players[j];
        if self.params.assert_pvs && !attacker.in_pvs {
            return None;
        }
        let shot = Shot { tick, weapon: hurt.weapon_id, victim: hurt.victim, damage: hurt.damage };
        let past = match self.shots.get(&sa) {
            Some(p) => Some(*p),
            None => None,
        };
        self.shots.insert(sa, shot);
        proof {
            assert forall|sid: u64| #[trigger] self.shots@.contains_key(sid) implies self.shots@[sid].tick
                <= self.latest by {
                if sid != sa {
                    assert(m.shots.contains_key(sid));
                }
            }
        }
        let past = match past {
            Some(p) => p,
            None => return None,
        };
        let gap = if hurt.weapon_id == 16 {
            self.params.min_tick_scout as u32
        } else if hurt.weapon_id == 18 {
            self.params.min_tick_heavy as u32
        } else {
            return None;
        };
        if past.weapon != hurt.weapon_id || past.victim != hurt.victim {
            return None;
        }
        let diff = tick - past.tick;
        if diff < gap && diff > 0 {
            Some(
                DoubleTapFinding {
                    tick,
                    player: sa,
                    class: attacker.class,
                    tick_1: past.tick,
                    tick_2: tick,
                    tick_diff: diff,
                    victim: hurt.victim,
                    weapon_id: hurt.weapon_id,
                    damage_1: past.damage,
                    damage_2: hurt.damage,
                },
            )
        } else {
            None
        }
    }
}

/// The SteamID64 a player's info gives, or 0.
fn sid_of(p: &PlayerView) -> (r: u64)
    ensures
        r == info_sid(*p),
{
    match &p.steam_id {
        Some(s) => match parse_steam3(s.as_str()) {
            Some(id) => id,
            None => 0,
        },
        None => 0,
    }
}

} // verus!
