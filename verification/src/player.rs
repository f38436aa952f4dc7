//! Players and buildings as the game state knows them.
use crate::invalid_equip::PlayerView;
use crate::steamid::{parse_steam3, steam3_id64};
use crate::text::str_eq;
use std::collections::HashMap;
use vstd::prelude::*;

verus! {

/// A player's class.
#[derive(Clone, Copy, Debug, PartialEq, Eq, Structural)]
pub enum PlayerClass {
    /// No class (yet).
    Other,
    Scout,
    Sniper,
    Soldier,
    Demoman,
    Medic,
    Heavy,
    Pyro,
    Spy,
    Engineer,
}

pub open spec fn class_display_name(c: PlayerClass) -> Seq<char> {
    match c {
        PlayerClass::Scout => "Scout"@,
        PlayerClass::Sniper => "Sniper"@,
        PlayerClass::Soldier => "Soldier"@,
        PlayerClass::Demoman => "Demoman"@,
        PlayerClass::Medic => "Medic"@,
        PlayerClass::Heavy => "Heavy"@,
        PlayerClass::Pyro => "Pyro"@,
        PlayerClass::Spy => "Spy"@,
        PlayerClass::Engineer => "Engineer"@,
        PlayerClass::Other => "Unknown"@,
    }
}

/// The class's name as reports show it ("Unknown" for none).
pub fn format_class_name(class: PlayerClass) -> (s: &'static str)
    ensures
        s@ == class_display_name(class),
{
    match class {
        PlayerClass::Scout => "Scout",
        PlayerClass::Sniper => "Sniper",
        PlayerClass::Soldier => "Soldier",
        PlayerClass::Demoman => "Demoman",
        PlayerClass::Medic => "Medic",
        PlayerClass::Heavy => "Heavy",
        PlayerClass::Pyro => "Pyro",
        PlayerClass::Spy => "Spy",
        PlayerClass::Engineer => "Engineer",
        PlayerClass::Other => "Unknown",
    }
}

/// A player's life state.
#[derive(Clone, Copy, Debug, PartialEq, Eq, Structural)]
pub enum PlayerState {
    Alive,
    Dying,
    Death,
    Respawnable,
}

pub open spec fn life_state(number: i64) -> PlayerState {
    if number == 1 {
        PlayerState::Dying
    } else if number == 2 {
        PlayerState::Death
    } else if number == 3 {
        PlayerState::Respawnable
    } else {
        PlayerState::Alive
    }
}

impl PlayerState {
    /// The life state a demo's `m_lifeState` value stands for; any value
    /// other than 1, 2 and 3 reads as alive.
    pub fn new(number: i64) -> (s: Self)
        ensures
            s == life_state(number),
    {
        match number {
            1 => PlayerState::Dying,
            2 => PlayerState::Death,
            3 => PlayerState::Respawnable,
            _ => PlayerState::Alive,
        }
    }
}

/// The kinds of engineer building.
#[derive(Clone, Copy, Debug, PartialEq, Eq, Structural)]
pub enum BuildingClass {
    Sentry,
    Dispenser,
    Teleporter,
}

/// The entity index an entity handle names: its low eleven bits (the game
/// has at most 2048 entities).
pub fn handle_to_entid(handle: u32) -> (e: u32)
    ensures
        e == handle & 0x7FFu32,
        e < 2048,
{
    let e = handle & 0x7FFu32;
    assert(handle & 0x7FFu32 < 2048) by (bit_vector);
    e
}

/// Which user id each player entity has, and which SteamID64 each user id.
pub struct PlayerDirectory {
    entid_to_userid: HashMap<u32, u16>,
    userid_to_id64: HashMap<u16, u64>,
}

/// The directory's two maps.
pub struct DirectoryModel {
    pub users: Map<u32, u16>,
    pub ids: Map<u16, u64>,
}

impl View for PlayerDirectory {
    type V = DirectoryModel;

    closed spec fn view(&self) -> DirectoryModel {
        DirectoryModel { users: self.entid_to_userid@, ids: self.userid_to_id64@ }
    }
}

/// The SteamID64 a connecting client's network id stands for: its Steam3
/// id read, or 0 where it does not read as one.
pub open spec fn network_id64(network_id: Seq<char>) -> u64 {
    match steam3_id64(network_id) {
        Some(x) => x,
        None => 0,
    }
}

impl PlayerDirectory {
    /// An empty directory.
    pub fn new() -> (d: Self)
        ensures
            d@.users == Map::<u32, u16>::empty(),
            d@.ids == Map::<u16, u64>::empty(),
    {
        PlayerDirectory { entid_to_userid: HashMap::new(), userid_to_id64: HashMap::new() }
    }

    /// The user id of the player entity `entid`.
    pub fn userid_of(&self, entid: u32) -> (r: Option<u16>)
        ensures
            r == (if self@.users.contains_key(entid) {
                Some(self@.users[entid])
            } else {
                None
            }),
    {
        broadcast use vstd::std_specs::hash::group_hash_axioms;

        match self.entid_to_userid.get(&entid) {
            Some(u) => Some(*u),
            None => None,
        }
    }

    /// The SteamID64 of user id `userid`.
    pub fn id64_of(&self, userid: u16) -> (r: Option<u64>)
        ensures
            r == (if self@.ids.contains_key(userid) {
                Some(self@.ids[userid])
            } else {
                None
            }),
    {
        broadcast use vstd::std_specs::hash::group_hash_axioms;

        match self.userid_to_id64.get(&userid) {
            Some(v) => Some(*v),
            None => None,
        }
    }

    /// Records the user id of a player entity.
    pub fn set_entid_to_userid(&mut self, entid: u32, userid: u16)
        ensures
            final(self)@.users == old(self)@.users.insert(entid, userid),
            final(self)@.ids == old(self)@.ids,
    {
        broadcast use vstd::std_specs::hash::group_hash_axioms;

        self.entid_to_userid.insert(entid, userid);
    }

    /// Records the SteamID64 of a user id.
    pub fn set_userid_to_id64(&mut self, userid: u16, id64: u64)
        ensures
            final(self)@.ids == old(self)@.ids.insert(userid, id64),
            final(self)@.users == old(self)@.users,
    {
        broadcast use vstd::std_specs::hash::group_hash_axioms;

        self.userid_to_id64.insert(userid, id64);
    }

    /// A client connected: its entity gets its user id, and, unless it is a
    /// bot, its user id gets the SteamID64 of its network id (0 where that
    /// is not a Steam3 id).
    pub fn on_player_connect(&mut self, index: u32, user_id: u16, network_id: &str)
        ensures
            final(self)@.users == old(self)@.users.insert(index, user_id),
            final(self)@.ids == if network_id@ == "BOT"@ {
                old(self)@.ids
            } else {
                old(self)@.ids.insert(user_id, network_id64(network_id@))
            },
    {
        self.set_entid_to_userid(index, user_id);
        if !str_eq(network_id, "BOT") {
            let id64 = match parse_steam3(network_id) {
                Some(x) => x,
                None => 0,
            };
            self.set_userid_to_id64(user_id, id64);
        }
    }

    /// A player's info arrived: its entity gets its user id, and its user id
    /// gets the SteamID64 of its Steam3 id where that reads as one.
    pub fn on_user_info(&mut self, entid: u32, user_id: u16, steam_id: &str)
        ensures
            final(self)@.users == old(self)@.users.insert(entid, user_id),
            final(self)@.ids == match steam3_id64(steam_id@) {
                Some(x) => old(self)@.ids.insert(user_id, x),
                None => old(self)@.ids,
            },
    {
        self.set_entid_to_userid(entid, user_id);
        match parse_steam3(steam_id) {
            Some(x) => self.set_userid_to_id64(user_id, x),
            None => {},
        }
    }
}

/// What is recorded for a connecting client is what is looked up after: its
/// entity's user id, and for a client that is not a bot, its SteamID64.
pub proof fn lemma_connect_then_lookup(before: DirectoryModel, after: DirectoryModel, index: u32, user_id: u16, network_id: Seq<char>)
    requires
        after.users == before.users.insert(index, user_id),
        after.ids == if network_id == "BOT"@ {
            before.ids
        } else {
            before.ids.insert(user_id, network_id64(network_id))
        },
    ensures
        after.users.contains_key(index) && after.users[index] == user_id,
        network_id != "BOT"@ ==> after.ids.contains_key(user_id) && after.ids[user_id] == network_id64(network_id),
{
}

/// The first player from `from` on whose entity is `e`.
pub open spec fn player_at_entity(players: Seq<PlayerView>, e: u32, from: int) -> Option<PlayerView>
    decreases players.len() - from,
{
    if from < 0 || from >= players.len() {
        None
    } else if players[from].entity == e {
        Some(players[from])
    } else {
        player_at_entity(players, e, from + 1)
    }
}

/// The SteamID64 entity `e` stands for: through the directory's user id,
/// or else through the Steam3 id in the info of the first player on it.
pub open spec fn entity_sid(dir: DirectoryModel, players: Seq<PlayerView>, e: u32) -> Option<u64> {
    if dir.users.contains_key(e) && dir.ids.contains_key(dir.users[e]) {
        Some(dir.ids[dir.users[e]])
    } else {
        match player_at_entity(players, e, 0) {
            Some(p) => if p.user_id is Some {
                match p.steam_id {
                    Some(s) => steam3_id64(s@),
                    None => None,
                }
            } else {
                None
            },
            None => None,
        }
    }
}

/// The SteamID64 of the player a raw player number in a bullet event
/// stands for: the number read as the entity after it, as the entity
/// itself, as a handle, and as the handle after it, the first that names a
/// known player.
pub open spec fn raw_player_sid(dir: DirectoryModel, players: Seq<PlayerView>, raw: u32) -> Option<u64> {
    let cands = seq![(raw + 1) as u32, raw, raw & 0x7FFu32, ((raw + 1) as u32) & 0x7FFu32];
    if entity_sid(dir, players, cands[0]) is Some {
        entity_sid(dir, players, cands[0])
    } else if entity_sid(dir, players, cands[1]) is Some {
        entity_sid(dir, players, cands[1])
    } else if entity_sid(dir, players, cands[2]) is Some {
        entity_sid(dir, players, cands[2])
    } else {
        entity_sid(dir, players, cands[3])
    }
}

fn entity_sid_exec(dir: &PlayerDirectory, players: &Vec<PlayerView>, e: u32) -> (r: Option<u64>)
    ensures
        r == entity_sid(dir@, players@, e),
{
    match dir.userid_of(e) {
        Some(uid) => match dir.id64_of(uid) {
            Some(sid) => return Some(sid),
            None => {},
        },
        None => {},
    }
    let mut i: usize = 0;
    while i < players.len() && players[i].entity != e
        invariant
            i <= players@.len(),
            player_at_entity(players@, e, i as int) == player_at_entity(players@, e, 0),
        decreases players.len() - i,
    {
        i += 1;
    }
    if i == players.len() {
        return None;
    }
    let p = &players[i];
    if p.user_id.is_none() {
        return None;
    }
    match &p.steam_id {
        Some(s) => parse_steam3(s.as_str()),
        None => None,
    }
}

/// The SteamID64 of the player a raw player number stands for.
pub fn resolve_player_sid(raw: u32, dir: &PlayerDirectory, players: &Vec<PlayerView>) -> (r: Option<u64>)
    requires
        raw < u32::MAX,
    ensures
        r == raw_player_sid(dir@, players@, raw),
{
    let next = raw + 1;
    let cands: [u32; 4] = [next, raw, handle_to_entid(raw), handle_to_entid(next)];
    let mut k: usize = 0;
    while k < 4
        invariant
            k <= 4,
            raw < u32::MAX,
            next == raw + 1,
            cands@ == seq![next, raw, raw & 0x7FFu32, next & 0x7FFu32],
            forall|j: int| 0 <= j < k ==> entity_sid(dir@, players@, #[trigger] cands@[j]) is None,
        decreases 4 - k,
    {
        let r = entity_sid_exec(dir, players, cands[k]);
        if r.is_some() {
            return r;
        }
        k += 1;
    }
    None
}

/// The SteamID64 of a player that is not a bot: their info's Steam3 id
/// read, where it reads.
pub open spec fn human_sid(p: PlayerView) -> Option<u64> {
    if p.user_id is Some && p.steam_id is Some && p.steam_id->Some_0@ != "BOT"@ {
        steam3_id64(p.steam_id->Some_0@)
    } else {
        None
    }
}

/// The SteamID64 of a player that is not a bot.
pub fn player_id(p: &PlayerView) -> (r: Option<u64>)
    ensures
        r == human_sid(*p),
{
    if p.user_id.is_none() {
        return None;
    }
    match &p.steam_id {
        Some(s) => if str_eq(s.as_str(), "BOT") {
            None
        } else {
            parse_steam3(s.as_str())
        },
        None => None,
    }
}

/// The first entity, among those the handles name in order, that has a
/// known user id.
pub open spec fn owner_of(dir: DirectoryModel, handles: Seq<i64>, from: int) -> Option<u32>
    decreases handles.len() - from,
{
    if from < 0 || from >= handles.len() {
        None
    } else if dir.users.contains_key((handles[from] as u32) & 0x7FFu32) {
        Some((handles[from] as u32) & 0x7FFu32)
    } else {
        owner_of(dir, handles, from + 1)
    }
}

/// The entity that owns a projectile: of the handles its owner and thrower
/// properties hold, in order, the first naming a player with a user id.
pub fn resolve_owner(dir: &PlayerDirectory, handles: &Vec<i64>) -> (r: Option<u32>)
    ensures
        r == owner_of(dir@, handles@, 0),
{
    let mut i: usize = 0;
    while i < handles.len()
        invariant
            i <= handles@.len(),
            owner_of(dir@, handles@, i as int) == owner_of(dir@, handles@, 0),
        decreases handles.len() - i,
    {
        let e = handle_to_entid(handles[i] as u32);
        if dir.userid_of(e).is_some() {
            return Some(e);
        }
        i += 1;
    }
    None
}

} // verus!
