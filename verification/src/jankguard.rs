//! When each player last spawned, teleported and fired: what detectors ask
//! to tell game mechanics from cheating.
use crate::invalid_equip::PlayerView;
use crate::player::{handle_to_entid, PlayerDirectory};
use crate::steamid::{parse_steam3, steam3_id64};
use crate::text::str_eq;
use std::collections::HashMap;
use vstd::prelude::*;

verus! {

/// The ticks at which a player last spawned, teleported and fired (0 for
/// never).
#[derive(Clone, Copy, Debug, PartialEq, Eq, Structural)]
pub struct PlayerTimes {
    pub last_spawn: u32,
    pub last_teleport: u32,
    pub last_fire: u32,
}

/// A player of whom nothing is recorded.
pub open spec fn no_times() -> PlayerTimes {
    PlayerTimes { last_spawn: 0, last_teleport: 0, last_fire: 0 }
}

/// What is recorded of player `sid`.
pub open spec fn times_of(m: Map<u64, PlayerTimes>, sid: u64) -> PlayerTimes {
    if m.contains_key(sid) {
        m[sid]
    } else {
        no_times()
    }
}

/// Whether the tick's game state shows `p` as a player to follow: in view,
/// alive, and with a Steam3 id that is not a bot's.
pub open spec fn followed(p: PlayerView) -> bool {
    p.in_pvs && p.alive && (p.steam_id matches Some(s) && s@ != "BOT"@)
}

/// The record after the tick: each followed player that moved too far in
/// one tick teleported at `tick`.
pub open spec fn after_tick(m: Map<u64, PlayerTimes>, tick: u32, players: Seq<(PlayerView, bool)>, n: int) -> Map<
    u64,
    PlayerTimes,
>
    decreases n,
{
    if n <= 0 {
        m
    } else {
        let before = after_tick(m, tick, players, n - 1);
        let (p, moved_far) = players[n - 1];
        if followed(p) && moved_far {
            let sid = match p.steam_id {
                Some(s) => match steam3_id64(s@) {
                    Some(id) => id,
                    None => 0,
                },
                None => 0,
            };
            before.insert(sid, PlayerTimes { last_teleport: tick, ..times_of(before, sid) })
        } else {
            before
        }
    }
}

/// The players' spawn, teleport and fire times.
pub struct JankGuard {
    player_data: HashMap<u64, PlayerTimes>,
}

impl View for JankGuard {
    type V = Map<u64, PlayerTimes>;

    closed spec fn view(&self) -> Map<u64, PlayerTimes> {
        self.player_data@
    }
}

impl JankGuard {
    pub fn new() -> (j: Self)
        ensures
            j@ == Map::<u64, PlayerTimes>::empty(),
    {
        JankGuard { player_data: HashMap::new() }
    }

    fn times(&self, player: u64) -> (t: PlayerTimes)
        ensures
            t == times_of(self@, player),
    {
        broadcast use vstd::std_specs::hash::group_hash_axioms;

        match self.player_data.get(&player) {
            Some(t) => *t,
            None => PlayerTimes { last_spawn: 0, last_teleport: 0, last_fire: 0 },
        }
    }

    fn record(&mut self, player: u64, t: PlayerTimes)
        ensures
            final(self)@ == old(self)@.insert(player, t),
    {
        broadcast use vstd::std_specs::hash::group_hash_axioms;

        self.player_data.insert(player, t);
    }

    /// How many ticks ago, at `tick`, the player last teleported.
    pub fn teleported(&self, player: u64, tick: u32) -> (r: u32)
        requires
            times_of(self@, player).last_teleport <= tick,
        ensures
            r == tick - times_of(self@, player).last_teleport,
    {
        tick - self.times(player).last_teleport
    }

    /// How many ticks ago, at `tick`, the player last spawned.
    pub fn spawned(&self, player: u64, tick: u32) -> (r: u32)
        requires
            times_of(self@, player).last_spawn <= tick,
        ensures
            r == tick - times_of(self@, player).last_spawn,
    {
        tick - self.times(player).last_spawn
    }

    /// How many ticks ago, at `tick`, the player last fired.
    pub fn fired(&self, player: u64, tick: u32) -> (r: u32)
        requires
            times_of(self@, player).last_fire <= tick,
        ensures
            r == tick - times_of(self@, player).last_fire,
    {
        tick - self.times(player).last_fire
    }

    /// A player spawned, or got a new loadout, at `tick`.
    pub fn on_spawn(&mut self, dir: &PlayerDirectory, user_id: u16, tick: u32)
        ensures
            final(self)@ == if dir@.ids.contains_key(user_id) {
                let sid = dir@.ids[user_id];
                old(self)@.insert(sid, PlayerTimes { last_spawn: tick, ..times_of(old(self)@, sid) })
            } else {
                old(self)@
            },
    {
        match dir.id64_of(user_id) {
            Some(sid) => {
                let t = self.times(sid);
                self.record(sid, PlayerTimes { last_spawn: tick, ..t });
            },
            None => {},
        }
    }

    /// A player went through a teleporter at `tick`.
    pub fn on_teleported(&mut self, dir: &PlayerDirectory, user_id: u16, tick: u32)
        ensures
            final(self)@ == if dir@.ids.contains_key(user_id) {
                let sid = dir@.ids[user_id];
                old(self)@.insert(sid, PlayerTimes { last_teleport: tick, ..times_of(old(self)@, sid) })
            } else {
                old(self)@
            },
    {
        match dir.id64_of(user_id) {
            Some(sid) => {
                let t = self.times(sid);
                self.record(sid, PlayerTimes { last_teleport: tick, ..t });
            },
            None => {},
        }
    }

    /// A bullet or a firing animation at `tick` named the player entity by
    /// `handle`; a handle that is no 32-bit unsigned number names nobody.
    pub fn on_fire(&mut self, dir: &PlayerDirectory, handle: i64, tick: u32)
        ensures
            final(self)@ == if 0 <= handle <= u32::MAX {
                let e = handle as u32 & 0x7FFu32;
                if dir@.users.contains_key(e) && dir@.ids.contains_key(dir@.users[e]) {
                    let sid = dir@.ids[dir@.users[e]];
                    old(self)@.insert(sid, PlayerTimes { last_fire: tick, ..times_of(old(self)@, sid) })
                } else {
                    old(self)@
                }
            } else {
                old(self)@
            },
    {
        if handle < 0 || handle > 0xFFFF_FFFFi64 {
            return;
        }
        let e = handle_to_entid(handle as u32);
        match dir.userid_of(e) {
            Some(uid) => match dir.id64_of(uid) {
                Some(sid) => {
                    let t = self.times(sid);
                    self.record(sid, PlayerTimes { last_fire: tick, ..t });
                },
                None => {},
            },
            None => {},
        }
    }

    /// A tick's players, each beside whether it moved more than 256 units
    /// since the last tick it was followed: those followed that did
    /// teleported at `tick`. Every followed player's Steam3 id must read.
    pub fn on_tick(&mut self, tick: u32, players: &Vec<(PlayerView, bool)>)
        requires
            forall|i: int|
                0 <= i < players@.len() && followed(#[trigger] players@[i].0) ==> (players@[i].0.steam_id matches Some(
                    s,
                ) && steam3_id64(s@) is Some),
        ensures
            final(self)@ == after_tick(old(self)@, tick, players@, players@.len() as int),
    {
        let mut i: usize = 0;
        while i < players.len()
            invariant
                i <= players@.len(),
                self@ == after_tick(old(self)@, tick, players@, i as int),
            decreases players.len() - i,
        {
            let p = &players[i].0;
            if players[i].1 && p.in_pvs && p.alive {
                match &p.steam_id {
                    Some(s) => {
                        if !str_eq(s.as_str(), "BOT") {
                            let sid = match parse_steam3(s.as_str()) {
                                Some(id) => id,
                                None => 0,
                            };
                            let t = self.times(sid);
                            self.record(sid, PlayerTimes { last_teleport: tick, ..t });
                        }
                    },
                    None => {},
                }
            }
            i += 1;
        }
    }

    /// `on_tick`, where every followed player's Steam3 id reads; `false`,
    /// with nothing recorded, where one does not.
    pub fn try_on_tick(&mut self, tick: u32, players: &Vec<(PlayerView, bool)>) -> (ok: bool)
        ensures
            ok == forall|i: int|
                0 <= i < players@.len() && followed(#[trigger] players@[i].0) ==> (players@[i].0.steam_id matches Some(
                    s,
                ) && steam3_id64(s@) is Some),
            final(self)@ == if ok {
                after_tick(old(self)@, tick, players@, players@.len() as int)
            } else {
                old(self)@
            },
    {
        let mut i: usize = 0;
        while i < players.len()
            invariant
                i <= players@.len(),
                forall|k: int|
                    0 <= k < i && followed(#[trigger] players@[k].0) ==> (players@[k].0.steam_id matches Some(
                        s,
                    ) && steam3_id64(s@) is Some),
            decreases players.len() - i,
        {
            let p = &players[i].0;
            if p.in_pvs && p.alive {
                match &p.steam_id {
                    Some(s) => {
                        if !str_eq(s.as_str(), "BOT") && parse_steam3(s.as_str()).is_none() {
                            return false;
                        }
                    },
                    None => {},
                }
            }
            i += 1;
        }
        self.on_tick(tick, players);
        true
    }
}

/// What an event records is what the queries read back: the player's
/// changed time is the event's tick, the player's other times stay, and no
/// other player's times change.
pub proof fn lemma_record_then_read(m: Map<u64, PlayerTimes>, sid: u64, other: u64, tick: u32)
    ensures
        ({
            let after = m.insert(sid, PlayerTimes { last_spawn: tick, ..times_of(m, sid) });
            &&& times_of(after, sid).last_spawn == tick
            &&& times_of(after, sid).last_teleport == times_of(m, sid).last_teleport
            &&& times_of(after, sid).last_fire == times_of(m, sid).last_fire
            &&& other != sid ==> times_of(after, other) == times_of(m, other)
        }),
        ({
            let after = m.insert(sid, PlayerTimes { last_teleport: tick, ..times_of(m, sid) });
            &&& times_of(after, sid).last_teleport == tick
            &&& times_of(after, sid).last_spawn == times_of(m, sid).last_spawn
            &&& times_of(after, sid).last_fire == times_of(m, sid).last_fire
            &&& other != sid ==> times_of(after, other) == times_of(m, other)
        }),
        ({
            let after = m.insert(sid, PlayerTimes { last_fire: tick, ..times_of(m, sid) });
            &&& times_of(after, sid).last_fire == tick
            &&& times_of(after, sid).last_spawn == times_of(m, sid).last_spawn
            &&& times_of(after, sid).last_teleport == times_of(m, sid).last_teleport
            &&& other != sid ==> times_of(after, other) == times_of(m, other)
        }),
{
}

} // verus!
