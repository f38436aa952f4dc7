//! The out-of-bounds pitch detector: a player looking further up or down
//! than the game allows, reported when it starts.
use crate::invalid_equip::PlayerView;
use crate::jankguard::followed;
use crate::profiles::{trim_whitespace, trimmed};
use crate::steamid::{parse_steam3, steam3_id64};
use crate::text::{starts_with_seq, starts_with_str, str_eq};
use vstd::prelude::*;

verus! {

/// A player whose pitch left the allowed range at `tick`.
#[derive(Clone, Copy, Debug, PartialEq, Eq, Structural)]
pub struct OobFinding {
    pub tick: u32,
    pub player: u64,
    /// The player's position among the tick's players.
    pub index: usize,
    /// Whether the server is one of Valve's matchmaking servers.
    pub valve_server: bool,
}

/// Whether a server name is that of a Valve matchmaking server.
pub open spec fn valve_server_name(name: Seq<char>) -> bool {
    starts_with_seq(name, "Valve Matchmaking Server"@)
}

/// The detector's state: the server's name, and the Steam3 ids flagged on
/// the last tick.
pub struct OobPitchModel {
    pub server_name: Seq<char>,
    pub last: Set<Seq<char>>,
}

/// The Steam3 ids of the players flagged among the first `n`: followed,
/// with their pitch out of range.
pub open spec fn flagged(players: Seq<(PlayerView, bool)>, n: int) -> Set<Seq<char>>
    decreases n,
{
    if n <= 0 {
        Set::empty()
    } else {
        let before = flagged(players, n - 1);
        let (p, out) = players[n - 1];
        if followed(p) && out {
            before.insert(p.steam_id->Some_0@)
        } else {
            before
        }
    }
}

/// The findings among the first `n` players: each flagged player whose
/// Steam3 id was not flagged on the last tick, in order.
pub open spec fn new_findings(
    last: Set<Seq<char>>,
    players: Seq<(PlayerView, bool)>,
    n: int,
    tick: u32,
    valve: bool,
) -> Seq<OobFinding>
    decreases n,
{
    if n <= 0 {
        Seq::empty()
    } else {
        let before = new_findings(last, players, n - 1, tick, valve);
        let (p, out) = players[n - 1];
        if followed(p) && out && !last.contains(p.steam_id->Some_0@) {
            before.push(
                OobFinding {
                    tick,
                    player: steam3_id64(p.steam_id->Some_0@)->Some_0,
                    index: (n - 1) as usize,
                    valve_server: valve,
                },
            )
        } else {
            before
        }
    }
}

/// Whether every player that may be reported has a Steam3 id that reads.
pub open spec fn ids_read(players: Seq<(PlayerView, bool)>) -> bool {
    forall|i: int|
        0 <= i < players.len() && followed(#[trigger] players[i].0) && players[i].1 ==> steam3_id64(
            players[i].0.steam_id->Some_0@,
        ) is Some
}

/// The out-of-bounds pitch detector.
pub struct OobPitch {
    server_name: String,
    last: Vec<String>,
}

impl View for OobPitch {
    type V = OobPitchModel;

    closed spec fn view(&self) -> OobPitchModel {
        OobPitchModel {
            server_name: self.server_name@,
            last: self.last@.map_values(|s: String| s@).to_set(),
        }
    }
}

impl OobPitch {
    pub fn new() -> (d: Self)
        ensures
            d@.server_name == Seq::<char>::empty(),
            d@.last == Set::<Seq<char>>::empty(),
    {
        let d = OobPitch { server_name: String::new(), last: Vec::new() };
        assert(d.last@.map_values(|s: String| s@).to_set() =~= Set::<Seq<char>>::empty());
        d
    }

    pub fn algorithm_name(&self) -> (s: &'static str)
        ensures
            s@ == "nocrex/oob_pitch"@,
    {
        "nocrex/oob_pitch"
    }

    /// The server announced itself: its name, trimmed, is kept unless a
    /// name is kept already.
    pub fn on_server_info(&mut self, server_name: &str)
        ensures
            final(self)@.last == old(self)@.last,
            final(self)@.server_name == if old(self)@.server_name.len() == 0 {
                trimmed(server_name@)
            } else {
                old(self)@.server_name
            },
    {
        if self.server_name.as_str().unicode_len() == 0 {
            self.server_name = trim_whitespace(server_name);
        }
    }

    fn was_flagged(&self, steam_id: &str) -> (r: bool)
        ensures
            r == self@.last.contains(steam_id@),
    {
        broadcast use vstd::seq_lib::group_seq_properties;

        let ghost v = self.last@.map_values(|s: String| s@);
        let mut i: usize = 0;
        while i < self.last.len()
            invariant
                i <= self.last@.len(),
                v == self.last@.map_values(|s: String| s@),
                forall|k: int| 0 <= k < i ==> (#[trigger] v[k]) != steam_id@,
            decreases self.last.len() - i,
        {
            if str_eq(self.last[i].as_str(), steam_id) {
                assert(v[i as int] == steam_id@);
                return true;
            }
            i += 1;
        }
        assert(!v.contains(steam_id@));
        false
    }

    /// A tick's players, each beside whether their pitch is out of the
    /// allowed range: the followed players out of range whose Steam3 id was
    /// not flagged on the last tick are reported, and the flagged ids are
    /// kept for the next tick.
    pub fn on_net_tick(&mut self, tick: u32, players: &Vec<(PlayerView, bool)>) -> (r: Vec<OobFinding>)
        requires
            ids_read(players@),
        ensures
            final(self)@.server_name == old(self)@.server_name,
            final(self)@.last == flagged(players@, players@.len() as int),
            r@ == new_findings(
                old(self)@.last,
                players@,
                players@.len() as int,
                tick,
                valve_server_name(old(self)@.server_name),
            ),
    {
        broadcast use vstd::seq_lib::group_seq_properties;

        let valve = starts_with_str(self.server_name.as_str(), "Valve Matchmaking Server");
        let mut found: Vec<OobFinding> = Vec::new();
        let mut now: Vec<String> = Vec::new();
        let mut i: usize = 0;
        while i < players.len()
            invariant
                i <= players@.len(),
                ids_read(players@),
                valve == valve_server_name(self@.server_name),
                found@ == new_findings(self@.last, players@, i as int, tick, valve),
                now@.map_values(|s: String| s@).to_set() == flagged(players@, i as int),
            decreases players.len() - i,
        {
            let p = &players[i].0;
            if players[i].1 && p.in_pvs && p.alive {
                match &p.steam_id {
                    Some(s) => {
                        if !str_eq(s.as_str(), "BOT") {
                            let ghost before = now@.map_values(|x: String| x@);
                            now.push(s.clone());
                            assert(now@.map_values(|x: String| x@) =~= before.push(s@));
                            assert forall|x: Seq<char>| #[trigger] before.push(s@).contains(x) <==> (before.contains(x) || x == s@) by {
                                if before.push(s@).contains(x) {
                                    let k = choose|k: int| 0 <= k < before.len() + 1 && before.push(s@)[k] == x;
                                    if k < before.len() {
                                        assert(before[k] == x);
                                    }
                                }
                                if before.contains(x) {
                                    let k = choose|k: int| 0 <= k < before.len() && before[k] == x;
                                    assert(before.push(s@)[k] == x);
                                }
                                if x == s@ {
                                    assert(before.push(s@)[before.len() as int] == x);
                                }
                            }
                            assert(before.push(s@).to_set() =~= before.to_set().insert(s@));
                            if !self.was_flagged(s.as_str()) {
                                let id = match parse_steam3(s.as_str()) {
                                    Some(id) => id,
                                    None => 0,
                                };
                                found.push(OobFinding { tick, player: id, index: i, valve_server: valve });
                            }
                        }
                    },
                    None => {},
                }
            }
            i += 1;
        }
        self.last = now;
        found
    }

    /// `on_net_tick`, where every player that may be reported has a Steam3
    /// id that reads; `None`, with nothing changed, where one does not.
    pub fn try_on_net_tick(&mut self, tick: u32, players: &Vec<(PlayerView, bool)>) -> (r: Option<Vec<OobFinding>>)
        ensures
            r is Some == ids_read(players@),
            r matches Some(f) ==> {
                &&& final(self)@.server_name == old(self)@.server_name
                &&& final(self)@.last == flagged(players@, players@.len() as int)
                &&& f@ == new_findings(
                    old(self)@.last,
                    players@,
                    players@.len() as int,
                    tick,
                    valve_server_name(old(self)@.server_name),
                )
            },
            r is None ==> final(self)@ == old(self)@,
    {
        let mut i: usize = 0;
        while i < players.len()
            invariant
                i <= players@.len(),
                forall|k: int|
                    0 <= k < i && followed(#[trigger] players@[k].0) && players@[k].1 ==> steam3_id64(
                        players@[k].0.steam_id->Some_0@,
                    ) is Some,
            decreases players.len() - i,
        {
            let p = &players[i].0;
            if players[i].1 && p.in_pvs && p.alive {
                match &p.steam_id {
                    Some(s) => {
                        if !str_eq(s.as_str(), "BOT") && parse_steam3(s.as_str()).is_none() {
                            return None;
                        }
                    },
                    None => {},
                }
            }
            i += 1;
        }
        Some(self.on_net_tick(tick, players))
    }
}

} // verus!
