//! The invalid equip region detector: a living player whose worn cosmetics
//! share an equip region, or who wears more cosmetics than a loadout holds,
//! long enough to rule out a loadout being swapped.
use crate::equip_regions::{
    check_cosmetic_conflict, conflict_mask, conflict_region_mask, conflict_spec, copy_info, cosmetic_lookup, has_region,
    has_region_named, hat, is_action_item, is_action_item_spec, is_dummy_or_invalid,
    is_weapon_wearable, is_weapon_wearable_spec, mask_names, names_view, region_mask_to_names,
    region_name, table_pos, CosmeticInfo, CosmeticTable, InfoModel, REGION_COUNT,
};
use crate::player::PlayerClass;
use crate::profiles::{trim_whitespace, trimmed};
use crate::steamid::{parse_steam3, steam3_id64};
use crate::text::{contains_seq, contains_str, str_eq};
use vstd::prelude::*;

verus! {

// ---------------------------------------------------------------------------
// Records kept by key, in the order the keys were first seen.
/// The index of the first entry at or after `from` whose key is `k`, or `-1`.
pub open spec fn key_pos<T>(s: Seq<(u32, T)>, k: u32, from: int) -> int
    decreases s.len() - from,
{
    if from < 0 || from >= s.len() {
        -1
    } else if s[from].0 == k {
        from
    } else {
        key_pos(s, k, from + 1)
    }
}

proof fn lemma_key_pos<T>(s: Seq<(u32, T)>, k: u32, from: int)
    requires
        0 <= from <= s.len(),
    ensures
        key_pos(s, k, from) == -1 <==> forall|j: int| from <= j < s.len() ==> s[j].0 != k,
        key_pos(s, k, from) != -1 ==> from <= key_pos(s, k, from) < s.len() && s[key_pos(
            s,
            k,
            from,
        )].0 == k,
        forall|j: int| from <= j < key_pos(s, k, from) ==> s[j].0 != k,
    decreases s.len() - from,
{
    if from < s.len() && s[from].0 != k {
        lemma_key_pos(s, k, from + 1);
    }
}

proof fn lemma_key_pos_same_keys<T, U>(a: Seq<(u32, T)>, b: Seq<(u32, U)>, k: u32, from: int)
    requires
        a.len() == b.len(),
        forall|i: int| 0 <= i < a.len() ==> (#[trigger] a[i]).0 == b[i].0,
    ensures
        key_pos(a, k, from) == key_pos(b, k, from),
    decreases a.len() - from,
{
    if 0 <= from < a.len() && a[from].0 != k {
        lemma_key_pos_same_keys(a, b, k, from + 1);
    }
}

/// The record kept under `k`, or `d` where there is none.
pub open spec fn get_or<T>(s: Seq<(u32, T)>, k: u32, d: T) -> T {
    let p = key_pos(s, k, 0);
    if p < 0 {
        d
    } else {
        s[p].1
    }
}

/// `s` with the record under `k` set to `v` (added at the end if new).
pub open spec fn put<T>(s: Seq<(u32, T)>, k: u32, v: T) -> Seq<(u32, T)> {
    let p = key_pos(s, k, 0);
    if p < 0 {
        s.push((k, v))
    } else {
        s.update(p, (k, v))
    }
}

/// `s` without the record under `k`.
pub open spec fn drop_key<T>(s: Seq<(u32, T)>, k: u32) -> Seq<(u32, T)> {
    let p = key_pos(s, k, 0);
    if p < 0 {
        s
    } else {
        s.remove(p)
    }
}

fn find_key<T>(v: &Vec<(u32, T)>, k: u32) -> (r: Option<usize>)
    ensures
        match r {
            Some(i) => i as int == key_pos(v@, k, 0) && i < v@.len(),
            None => key_pos(v@, k, 0) == -1,
        },
{
    let mut i: usize = 0;
    while i < v.len()
        invariant
            i <= v@.len(),
            forall|j: int| 0 <= j < i ==> (#[trigger] v@[j]).0 != k,
        decreases v.len() - i,
    {
        if v[i].0 == k {
            proof {
                lemma_key_pos(v@, k, 0);
                let p = key_pos(v@, k, 0);
                if p < i {
                    assert(v@[p].0 != k);
                }
            }
            return Some(i);
        }
        i += 1;
    }
    proof {
        lemma_key_pos(v@, k, 0);
    }
    None
}

/// `u32` addition that wraps past the top, as the release build does.
pub open spec fn wrap_inc(x: u32) -> u32 {
    if x == u32::MAX {
        0
    } else {
        (x + 1) as u32
    }
}

fn inc(x: u32) -> (r: u32)
    ensures
        r == wrap_inc(x),
{
    if x == u32::MAX {
        0
    } else {
        x + 1
    }
}

// ---------------------------------------------------------------------------
// State.
/// The detector's settings.
#[derive(Clone, Copy, Debug, PartialEq, Eq, Structural)]
pub struct EquipParams {
    /// Ticks a violation must last before it is reported (at least 1).
    pub min_persistence_ticks: i32,
    /// Whether wearing more than three cosmetics is a violation.
    pub check_cosmetic_limit: bool,
    /// Whether to leave out the Glasses and Whole Head cross-region clashes.
    pub ignore_quickswitch: bool,
    /// Whether only Valve matchmaking servers are analysed.
    pub valve_servers_only: bool,
    /// Whether a two-hat overlap counts only once seen across a respawn.
    pub ignore_preset_swap: bool,
}

impl EquipParams {
    /// The settings the detector starts with.
    pub fn defaults() -> (p: Self)
        ensures
            p == (EquipParams {
                min_persistence_ticks: 600,
                check_cosmetic_limit: true,
                ignore_quickswitch: true,
                valve_servers_only: true,
                ignore_preset_swap: true,
            }),
    {
        EquipParams {
            min_persistence_ticks: 600,
            check_cosmetic_limit: true,
            ignore_quickswitch: true,
            valve_servers_only: true,
            ignore_preset_swap: true,
        }
    }
}

/// The persistence threshold in ticks: the setting, at least 1.
pub open spec fn min_ticks(p: EquipParams) -> u32 {
    if p.min_persistence_ticks < 1 {
        1
    } else {
        p.min_persistence_ticks as u32
    }
}

/// What is known of a wearable entity.
#[derive(Clone, Copy, Debug, PartialEq, Eq, Structural)]
pub struct WearableState {
    /// The entity that wears it (0 for none).
    pub owner: u32,
    pub item_def_index: u16,
    /// The account the item belongs to (0 where not sent).
    pub account_id: u32,
    /// Whether it is part of a spy's disguise.
    pub is_disguise: bool,
    /// Whether it is not drawn.
    pub nodraw: bool,
    pub last_seen_tick: u32,
    /// The owner's life in which it was put on.
    pub spawn_generation: u32,
}

/// A wearable first seen at `tick`, before any of its properties are read.
pub open spec fn fresh_wearable(tick: u32) -> WearableState {
    WearableState {
        owner: 0,
        item_def_index: 0,
        account_id: 0,
        is_disguise: false,
        nodraw: false,
        last_seen_tick: tick,
        spawn_generation: 0,
    }
}

/// What is kept of a player between ticks.
struct PlayerGeneration {
    generation: u32,
    current_class: PlayerClass,
    conflict_ticks: u32,
    post_reset_conflict_ticks: u32,
    witnessed_in_pvs_reset: bool,
    reported_loadouts: Vec<Vec<u16>>,
}

/// The view of what is kept of a player.
pub struct GenModel {
    /// Counts the player's lives (deaths, spawns and class changes).
    pub generation: u32,
    /// The class last seen (none yet at first).
    pub class: PlayerClass,
    /// Consecutive ticks in violation.
    pub conflict_ticks: u32,
    /// Consecutive ticks in violation seen since a respawn in view.
    pub post_reset_ticks: u32,
    /// Whether the last reset was seen with the player in view.
    pub witnessed_reset: bool,
    /// The loadouts already reported.
    pub reported: Seq<Seq<u16>>,
}

impl View for PlayerGeneration {
    type V = GenModel;

    closed spec fn view(&self) -> GenModel {
        GenModel {
            generation: self.generation,
            class: self.current_class,
            conflict_ticks: self.conflict_ticks,
            post_reset_ticks: self.post_reset_conflict_ticks,
            witnessed_reset: self.witnessed_in_pvs_reset,
            reported: self.reported_loadouts@.map_values(|v: Vec<u16>| v@),
        }
    }
}

/// A player not seen before.
pub open spec fn fresh_gen() -> GenModel {
    GenModel {
        generation: 0,
        class: PlayerClass::Other,
        conflict_ticks: 0,
        post_reset_ticks: 0,
        witnessed_reset: false,
        reported: Seq::empty(),
    }
}

/// `ps` with a record for `e`, a fresh one if it had none.
pub open spec fn ensure_gen(ps: Seq<(u32, GenModel)>, e: u32) -> Seq<(u32, GenModel)> {
    if key_pos(ps, e, 0) < 0 {
        ps.push((e, fresh_gen()))
    } else {
        ps
    }
}

/// A new life for `e`: its generation moves on and its counters restart.
pub open spec fn advance_generation(ps: Seq<(u32, GenModel)>, e: u32, in_pvs: bool) -> Seq<
    (u32, GenModel),
> {
    let g = get_or(ps, e, fresh_gen());
    put(
        ps,
        e,
        GenModel {
            generation: wrap_inc(g.generation),
            conflict_ticks: 0,
            post_reset_ticks: 0,
            witnessed_reset: in_pvs,
            ..g
        },
    )
}

/// A new inventory for `e`: its counters restart in the same life.
pub open spec fn reset_counters(ps: Seq<(u32, GenModel)>, e: u32, in_pvs: bool) -> Seq<
    (u32, GenModel),
> {
    let g = get_or(ps, e, fresh_gen());
    put(ps, e, GenModel { conflict_ticks: 0, post_reset_ticks: 0, witnessed_reset: in_pvs, ..g })
}

/// The detector's state.
pub struct EquipModel {
    /// Wearable entities by entity index.
    pub wearables: Seq<(u32, WearableState)>,
    /// Players by entity index.
    pub players: Seq<(u32, GenModel)>,
    pub current_tick: u32,
    pub params: EquipParams,
    /// The server's name (empty until known).
    pub server_name: Seq<char>,
}

/// Detects cosmetics worn against the equip region rules.
pub struct InvalidEquipRegion {
    pub params: EquipParams,
    /// The server's name as the demo gives it (empty until known).
    pub server_name: String,
    wearables: Vec<(u32, WearableState)>,
    players: Vec<(u32, PlayerGeneration)>,
    current_tick: u32,
}

/// The view of the player records.
spec fn gens_view(v: Seq<(u32, PlayerGeneration)>) -> Seq<(u32, GenModel)> {
    v.map_values(|e: (u32, PlayerGeneration)| (e.0, e.1@))
}

impl View for InvalidEquipRegion {
    type V = EquipModel;

    closed spec fn view(&self) -> EquipModel {
        EquipModel {
            wearables: self.wearables@,
            players: gens_view(self.players@),
            current_tick: self.current_tick,
            params: self.params,
            server_name: self.server_name@,
        }
    }
}

// ---------------------------------------------------------------------------
// Input.
/// A player as the tick's game state shows it.
pub struct PlayerView {
    pub entity: u32,
    /// The player's user id, where the player's info is known.
    pub user_id: Option<u32>,
    /// Whether the player's life state is alive.
    pub alive: bool,
    pub class: PlayerClass,
    /// Whether the player is in the recording player's view.
    pub in_pvs: bool,
    /// The player's Steam3 id, where the player's info is known.
    pub steam_id: Option<String>,
}

/// The first player whose user id is `uid`.
pub open spec fn find_user(players: Seq<PlayerView>, uid: u32, from: int) -> Option<PlayerView>
    decreases players.len() - from,
{
    if from < 0 || from >= players.len() {
        None
    } else if players[from].user_id == Some(uid) {
        Some(players[from])
    } else {
        find_user(players, uid, from + 1)
    }
}

fn find_user_exec(players: &Vec<PlayerView>, uid: u32) -> (r: Option<usize>)
    ensures
        match find_user(players@, uid, 0) {
            Some(p) => r matches Some(i) && i < players@.len() && players@[i as int] == p,
            None => r is None,
        },
{
    let mut i: usize = 0;
    while i < players.len()
        invariant
            i <= players@.len(),
            find_user(players@, uid, i as int) == find_user(players@, uid, 0),
        decreases players.len() - i,
    {
        if players[i].user_id == Some(uid) {
            return Some(i);
        }
        i += 1;
    }
    None
}

/// A packet's update of one entity: its index, its server class, whether it
/// is deleted or entering, and those of its properties that read as integers,
/// by name.
pub struct EntityUpdate {
    pub index: u32,
    pub class_name: String,
    pub deleted: bool,
    pub entered: bool,
    pub props: Vec<(String, i64)>,
}

/// The wearable properties a packet sets.
pub struct PropScan {
    pub owner: Option<u32>,
    pub item: Option<u16>,
    pub account: Option<u32>,
    pub disguise: Option<bool>,
    pub nodraw: Option<bool>,
}

/// The owner an entity handle names: its low eleven bits, with the
/// all-ones and zero indices both read as no owner (0).
pub open spec fn owner_of_handle(v: i64) -> u32 {
    let e = (v as u32) & 0x7FFu32;
    if e != 0x7FF && e != 0 {
        e
    } else {
        0
    }
}

/// What property `name` with value `v` sets.
pub open spec fn scan_step(sc: PropScan, name: Seq<char>, v: i64) -> PropScan {
    if name == "m_hOwnerEntity"@ || name == "m_hOwner"@ {
        PropScan { owner: Some(owner_of_handle(v)), ..sc }
    } else if name == "m_iItemDefinitionIndex"@ {
        PropScan { item: Some(v as u16), ..sc }
    } else if name == "m_iAccountID"@ {
        PropScan { account: Some(v as u32), ..sc }
    } else if name == "m_bDisguiseWearable"@ {
        PropScan { disguise: Some(v > 0), ..sc }
    } else if name == "m_fEffects"@ {
        PropScan { nodraw: Some(v & 32 != 0), ..sc }
    } else {
        sc
    }
}

/// The properties a packet sets, the last of each name standing.
pub open spec fn scan(props: Seq<(String, i64)>) -> PropScan
    decreases props.len(),
{
    if props.len() == 0 {
        PropScan { owner: None, item: None, account: None, disguise: None, nodraw: None }
    } else {
        scan_step(scan(props.drop_last()), props.last().0@, props.last().1)
    }
}

/// The state after one entity's update at the current tick.
pub open spec fn entity_step(m: EquipModel, u: EntityUpdate) -> EquipModel {
    if u.deleted {
        EquipModel { wearables: drop_key(m.wearables, u.index), ..m }
    } else if !contains_seq(u.class_name@, "Wearable"@) {
        m
    } else {
        let sc = scan(u.props@);
        let w0 = get_or(m.wearables, u.index, fresh_wearable(m.current_tick));
        let players = match sc.owner {
            Some(o) => if o != 0 {
                ensure_gen(m.players, o)
            } else {
                m.players
            },
            None => m.players,
        };
        let w1 = match sc.owner {
            Some(o) => if o == 0 {
                WearableState { owner: 0, ..w0 }
            } else if o != w0.owner || u.entered {
                WearableState {
                    owner: o,
                    spawn_generation: get_or(players, o, fresh_gen()).generation,
                    ..w0
                }
            } else {
                w0
            },
            None => w0,
        };
        let w2 = WearableState {
            item_def_index: match sc.item {
                Some(x) => x,
                None => w1.item_def_index,
            },
            account_id: match sc.account {
                Some(x) => x,
                None => w1.account_id,
            },
            is_disguise: match sc.disguise {
                Some(x) => x,
                None => w1.is_disguise,
            },
            nodraw: match sc.nodraw {
                Some(x) => x,
                None => w1.nodraw,
            },
            last_seen_tick: m.current_tick,
            ..w1
        };
        EquipModel { wearables: put(m.wearables, u.index, w2), players, ..m }
    }
}

/// The state after the removals and then the updates of a packet.
pub open spec fn remove_all(m: EquipModel, removed: Seq<u32>) -> EquipModel
    decreases removed.len(),
{
    if removed.len() == 0 {
        m
    } else {
        let r = remove_all(m, removed.drop_last());
        EquipModel { wearables: drop_key(r.wearables, removed.last()), ..r }
    }
}

pub open spec fn update_all(m: EquipModel, updates: Seq<EntityUpdate>) -> EquipModel
    decreases updates.len(),
{
    if updates.len() == 0 {
        m
    } else {
        entity_step(update_all(m, updates.drop_last()), updates.last())
    }
}

// ---------------------------------------------------------------------------
// The events that change the state.
impl InvalidEquipRegion {
    /// A detector with the default settings and nothing seen.
    pub fn new() -> (d: Self)
        ensures
            d@.params == (EquipParams {
                min_persistence_ticks: 600,
                check_cosmetic_limit: true,
                ignore_quickswitch: true,
                valve_servers_only: true,
                ignore_preset_swap: true,
            }),
            d@.server_name == Seq::<char>::empty(),
            d@.wearables == Seq::<(u32, WearableState)>::empty(),
            d@.players == Seq::<(u32, GenModel)>::empty(),
            d@.current_tick == 0,
    {
        let d = InvalidEquipRegion {
            params: EquipParams::defaults(),
            server_name: String::new(),
            wearables: Vec::new(),
            players: Vec::new(),
            current_tick: 0,
        };
        assert(gens_view(d.players@) == Seq::<(u32, GenModel)>::empty());
        d
    }

    /// The detector's name.
    pub fn algorithm_name(&self) -> (n: &'static str)
        ensures
            n@ == "fidoo/invalid_equip_region"@,
    {
        "fidoo/invalid_equip_region"
    }

    /// Records the server's name from the server info, unless it is known.
    pub fn on_server_info(&mut self, tick: u32, name: &str)
        ensures
            final(self)@ == (EquipModel {
                current_tick: tick,
                server_name: if old(self)@.server_name.len() == 0 {
                    trimmed(name@)
                } else {
                    old(self)@.server_name
                },
                ..old(self)@
            }),
    {
        self.current_tick = tick;
        if self.server_name.as_str().unicode_len() == 0 {
            self.server_name = trim_whitespace(name);
        }
    }

    /// Records the server's name from a `hostname` console variable, unless it
    /// is known.
    pub fn on_set_convars(&mut self, tick: u32, vars: &Vec<(String, String)>)
        ensures
            final(self)@ == (EquipModel {
                current_tick: tick,
                server_name: hostname_after(old(self)@.server_name, vars@),
                ..old(self)@
            }),
    {
        self.current_tick = tick;
        let mut i: usize = 0;
        while i < vars.len()
            invariant
                i <= vars@.len(),
                self@ == (EquipModel {
                    current_tick: tick,
                    server_name: hostname_after(old(self)@.server_name, vars@.subrange(0, i as int)),
                    ..old(self)@
                }),
            decreases vars.len() - i,
        {
            assert(vars@.subrange(0, i + 1).drop_last() == vars@.subrange(0, i as int));
            if str_eq(vars[i].0.as_str(), "hostname") && self.server_name.as_str().unicode_len() == 0 {
                self.server_name = trim_whitespace(vars[i].1.as_str());
            }
            i += 1;
        }
        assert(vars@.subrange(0, vars@.len() as int) == vars@);
    }

    /// A new round: everything seen so far is forgotten.
    pub fn on_round_start(&mut self, tick: u32)
        ensures
            final(self)@ == (EquipModel {
                wearables: Seq::empty(),
                players: Seq::empty(),
                current_tick: tick,
                ..old(self)@
            }),
    {
        self.current_tick = tick;
        self.wearables = Vec::new();
        self.players = Vec::new();
        assert(gens_view(self.players@) == Seq::<(u32, GenModel)>::empty());
    }

    /// The index of the record for `e`, added fresh if there was none.
    fn gen_slot(&mut self, e: u32) -> (i: usize)
        ensures
            final(self)@ == (EquipModel { players: ensure_gen(old(self)@.players, e), ..old(self)@ }),
            i < final(self)@.players.len(),
            i as int == key_pos(final(self)@.players, e, 0),
    {
        proof {
            lemma_key_pos_same_keys(self.players@, gens_view(self.players@), e, 0);
        }
        match find_key(&self.players, e) {
            Some(i) => i,
            None => {
                let fresh = PlayerGeneration {
                    generation: 0,
                    current_class: PlayerClass::Other,
                    conflict_ticks: 0,
                    post_reset_conflict_ticks: 0,
                    witnessed_in_pvs_reset: false,
                    reported_loadouts: Vec::new(),
                };
                assert(fresh.reported_loadouts@.map_values(|v: Vec<u16>| v@) =~= Seq::<Seq<u16>>::empty());
                assert(fresh@ == fresh_gen());
                let ghost old_players = self.players@;
                self.players.push((e, fresh));
                assert(gens_view(self.players@) =~= gens_view(old_players).push((e, fresh_gen())));
                proof {
                    lemma_key_pos_same_keys(old_players, gens_view(old_players), e, 0);
                    lemma_key_pos(old_players, e, 0);
                    lemma_key_pos(self.players@, e, 0);
                    lemma_key_pos_same_keys(self.players@, gens_view(self.players@), e, 0);
                    let n = old_players.len() as int;
                    assert(self.players@[n].0 == e);
                    let p = key_pos(self.players@, e, 0);
                    if 0 <= p < n {
                        assert(self.players@[p] == old_players[p]);
                        assert(false);
                    }
                }
                self.players.len() - 1
            },
        }
    }

    /// Takes the record at `i` out, leaving a blank in its place.
    fn take_gen(&mut self, i: usize) -> (g: PlayerGeneration)
        requires
            i < old(self).players@.len(),
        ensures
            final(self).wearables == old(self).wearables,
            final(self).current_tick == old(self).current_tick,
            final(self).params == old(self).params,
            final(self).server_name == old(self).server_name,
            final(self).players@.len() == old(self).players@.len(),
            forall|j: int| 0 <= j < old(self).players@.len() && j != i ==> final(self).players@[j] == old(self).players@[j],
            final(self).players@[i as int].0 == old(self).players@[i as int].0,
            g@ == old(self).players@[i as int].1@,
    {
        let k = self.players[i].0;
        let mut slot = (k, PlayerGeneration {
            generation: 0,
            current_class: PlayerClass::Other,
            conflict_ticks: 0,
            post_reset_conflict_ticks: 0,
            witnessed_in_pvs_reset: false,
            reported_loadouts: Vec::new(),
        });
        self.players.set_and_swap(i, &mut slot);
        slot.1
    }

    /// Puts record `g` back at `i`.
    fn restore_gen(&mut self, i: usize, g: PlayerGeneration)
        requires
            i < old(self).players@.len(),
        ensures
            final(self).wearables == old(self).wearables,
            final(self).current_tick == old(self).current_tick,
            final(self).params == old(self).params,
            final(self).server_name == old(self).server_name,
            final(self).players@ == old(self).players@.update(i as int, (old(self).players@[i as int].0, g)),
    {
        let k = self.players[i].0;
        self.players.set(i, (k, g));
    }

    /// Sets the record of `e` to `g` where `e` already has one at `i`.
    proof fn lemma_gens_update(v: Seq<(u32, PlayerGeneration)>, i: int, g: PlayerGeneration)
        requires
            0 <= i < v.len(),
        ensures
            gens_view(v.update(i, (v[i].0, g))) == gens_view(v).update(i, (v[i].0, g@)),
    {
        assert(gens_view(v.update(i, (v[i].0, g))) =~= gens_view(v).update(i, (v[i].0, g@)));
    }

    fn start_life(&mut self, e: u32, in_pvs: bool, new_life: bool)
        ensures
            final(self)@ == (EquipModel {
                players: if new_life {
                    advance_generation(old(self)@.players, e, in_pvs)
                } else {
                    reset_counters(old(self)@.players, e, in_pvs)
                },
                ..old(self)@
            }),
    {
        let ghost ps0 = self@.players;
        let i = self.gen_slot(e);
        let ghost ps1 = self@.players;
        let ghost raw = self.players@;
        proof {
            lemma_key_pos(ps0, e, 0);
            lemma_key_pos(ps1, e, 0);
        }
        let mut g = self.take_gen(i);
        if new_life {
            g.generation = inc(g.generation);
        }
        g.conflict_ticks = 0;
        g.post_reset_conflict_ticks = 0;
        g.witnessed_in_pvs_reset = in_pvs;
        self.restore_gen(i, g);
        proof {
            Self::lemma_gens_update(raw, i as int, g);
            assert(self.players@ == raw.update(i as int, (raw[i as int].0, g)));
            assert(ps1[i as int] == (raw[i as int].0, raw[i as int].1@));
            assert(raw[i as int].0 == e);
            let old_g = get_or(ps0, e, fresh_gen());
            assert(old_g == ps1[i as int].1);
            assert(ps1.update(i as int, (e, g@)) =~= put(ps0, e, g@));
        }
    }

    /// A player died: their next spawn starts a new life.
    pub fn on_player_death(&mut self, tick: u32, user_id: u32, players: &Vec<PlayerView>)
        ensures
            final(self)@ == match find_user(players@, user_id, 0) {
                Some(p) => EquipModel {
                    players: advance_generation(old(self)@.players, p.entity, false),
                    current_tick: tick,
                    ..old(self)@
                },
                None => EquipModel { current_tick: tick, ..old(self)@ },
            },
    {
        self.current_tick = tick;
        match find_user_exec(players, user_id) {
            Some(i) => self.start_life(players[i].entity, false, true),
            None => {},
        }
    }

    /// A player spawned: a new life, witnessed if the player is in view.
    pub fn on_player_spawn(&mut self, tick: u32, user_id: u32, players: &Vec<PlayerView>)
        ensures
            final(self)@ == match find_user(players@, user_id, 0) {
                Some(p) => EquipModel {
                    players: advance_generation(old(self)@.players, p.entity, p.in_pvs),
                    current_tick: tick,
                    ..old(self)@
                },
                None => EquipModel { current_tick: tick, ..old(self)@ },
            },
    {
        self.current_tick = tick;
        match find_user_exec(players, user_id) {
            Some(i) => self.start_life(players[i].entity, players[i].in_pvs, true),
            None => {},
        }
    }

    /// A player's inventory was applied: the counters restart in the same life.
    pub fn on_post_inventory(&mut self, tick: u32, user_id: u32, players: &Vec<PlayerView>)
        ensures
            final(self)@ == match find_user(players@, user_id, 0) {
                Some(p) => EquipModel {
                    players: reset_counters(old(self)@.players, p.entity, p.in_pvs),
                    current_tick: tick,
                    ..old(self)@
                },
                None => EquipModel { current_tick: tick, ..old(self)@ },
            },
    {
        self.current_tick = tick;
        match find_user_exec(players, user_id) {
            Some(i) => self.start_life(players[i].entity, players[i].in_pvs, false),
            None => {},
        }
    }
}

fn scan_props(props: &Vec<(String, i64)>) -> (sc: PropScan)
    ensures
        sc == scan(props@),
{
    let mut sc = PropScan { owner: None, item: None, account: None, disguise: None, nodraw: None };
    let mut i: usize = 0;
    while i < props.len()
        invariant
            i <= props@.len(),
            sc == scan(props@.subrange(0, i as int)),
        decreases props.len() - i,
    {
        assert(props@.subrange(0, i + 1).drop_last() == props@.subrange(0, i as int));
        let name = props[i].0.as_str();
        let v = props[i].1;
        if str_eq(name, "m_hOwnerEntity") || str_eq(name, "m_hOwner") {
            let e = (v as u32) & 0x7FFu32;
            let o: u32 = if e != 0x7FF && e != 0 {
                e
            } else {
                0
            };
            sc = PropScan { owner: Some(o), ..sc };
        } else if str_eq(name, "m_iItemDefinitionIndex") {
            sc = PropScan { item: Some(v as u16), ..sc };
        } else if str_eq(name, "m_iAccountID") {
            sc = PropScan { account: Some(v as u32), ..sc };
        } else if str_eq(name, "m_bDisguiseWearable") {
            sc = PropScan { disguise: Some(v > 0), ..sc };
        } else if str_eq(name, "m_fEffects") {
            sc = PropScan { nodraw: Some(v & 32 != 0), ..sc };
        }
        i += 1;
    }
    assert(props@.subrange(0, props@.len() as int) == props@);
    sc
}

impl InvalidEquipRegion {
    fn drop_wearable(&mut self, k: u32)
        ensures
            final(self)@ == (EquipModel { wearables: drop_key(old(self)@.wearables, k), ..old(self)@ }),
    {
        match find_key(&self.wearables, k) {
            Some(i) => {
                self.wearables.remove(i);
            },
            None => {},
        }
    }

    fn apply_update(&mut self, u: &EntityUpdate)
        ensures
            final(self)@ == entity_step(old(self)@, *u),
    {
        if u.deleted {
            self.drop_wearable(u.index);
            return;
        }
        if !contains_str(u.class_name.as_str(), "Wearable") {
            return;
        }
        let ghost m = self@;
        let sc = scan_props(&u.props);
        let tick = self.current_tick;
        let slot = find_key(&self.wearables, u.index);
        let w0 = match slot {
            Some(i) => self.wearables[i].1,
            None => WearableState {
                owner: 0,
                item_def_index: 0,
                account_id: 0,
                is_disguise: false,
                nodraw: false,
                last_seen_tick: tick,
                spawn_generation: 0,
            },
        };
        assert(w0 == get_or(m.wearables, u.index, fresh_wearable(m.current_tick)));
        let w1 = match sc.owner {
            Some(o) => if o == 0 {
                WearableState { owner: 0, ..w0 }
            } else {
                let j = self.gen_slot(o);
                proof {
                    lemma_key_pos(self@.players, o, 0);
                }
                let g = self.players[j].1.generation;
                assert(g == get_or(self@.players, o, fresh_gen()).generation);
                if o != w0.owner || u.entered {
                    WearableState { owner: o, spawn_generation: g, ..w0 }
                } else {
                    w0
                }
            },
            None => w0,
        };
        let w2 = WearableState {
            item_def_index: match sc.item {
                Some(x) => x,
                None => w1.item_def_index,
            },
            account_id: match sc.account {
                Some(x) => x,
                None => w1.account_id,
            },
            is_disguise: match sc.disguise {
                Some(x) => x,
                None => w1.is_disguise,
            },
            nodraw: match sc.nodraw {
                Some(x) => x,
                None => w1.nodraw,
            },
            last_seen_tick: tick,
            ..w1
        };
        match slot {
            Some(i) => self.wearables.set(i, (u.index, w2)),
            None => self.wearables.push((u.index, w2)),
        }
    }

    /// A packet of entities: the removed ones are forgotten, then each
    /// wearable's update is read, in order. A wearable takes the life of its
    /// owner when it changes hands or enters.
    pub fn on_entities(&mut self, tick: u32, removed: &Vec<u32>, updates: &Vec<EntityUpdate>)
        ensures
            final(self)@ == update_all(
                remove_all(EquipModel { current_tick: tick, ..old(self)@ }, removed@),
                updates@,
            ),
    {
        self.current_tick = tick;
        let ghost m0 = self@;
        let mut i: usize = 0;
        while i < removed.len()
            invariant
                i <= removed@.len(),
                self@ == remove_all(m0, removed@.subrange(0, i as int)),
            decreases removed.len() - i,
        {
            assert(removed@.subrange(0, i + 1).drop_last() == removed@.subrange(0, i as int));
            self.drop_wearable(removed[i]);
            i += 1;
        }
        assert(removed@.subrange(0, removed@.len() as int) == removed@);
        let ghost m1 = self@;
        let mut j: usize = 0;
        while j < updates.len()
            invariant
                j <= updates@.len(),
                self@ == update_all(m1, updates@.subrange(0, j as int)),
            decreases updates.len() - j,
        {
            assert(updates@.subrange(0, j + 1).drop_last() == updates@.subrange(0, j as int));
            self.apply_update(&updates[j]);
            j += 1;
        }
        assert(updates@.subrange(0, updates@.len() as int) == updates@);
    }
}

/// The server's name after the console variables `vars`: the first
/// `hostname` sets it where it was empty.
pub open spec fn hostname_after(name: Seq<char>, vars: Seq<(String, String)>) -> Seq<char>
    decreases vars.len(),
{
    if vars.len() == 0 {
        name
    } else {
        let before = hostname_after(name, vars.drop_last());
        if vars.last().0@ == "hostname"@ && before.len() == 0 {
            trimmed(vars.last().1@)
        } else {
            before
        }
    }
}

// ---------------------------------------------------------------------------
// A tick: each living player's worn cosmetics are checked.
/// The account id inside a SteamID64: its low 32 bits.
pub open spec fn account_of(sid: u64) -> u32 {
    (sid & 0xFFFF_FFFFu64) as u32
}

/// Whether wearable `w` counts toward the loadout of `entity` in life `gen`:
/// worn by it since that life began, drawn, not part of a disguise, not
/// another account's, and a cosmetic rather than a placeholder, a weapon or
/// an action item.
pub open spec fn counts_toward(w: WearableState, entity: u32, gen: u32, acct: u32) -> bool {
    &&& w.owner == entity
    &&& w.spawn_generation == gen
    &&& !w.nodraw
    &&& !w.is_disguise
    &&& (w.account_id == 0 || w.account_id == acct)
    &&& !(w.item_def_index == 0 || w.item_def_index == 65535)
    &&& !is_weapon_wearable_spec(w.item_def_index)
    &&& !is_action_item_spec(w.item_def_index)
}

/// The first index at or after `from` whose id is at least `x`, or the length.
pub open spec fn lower_bound(s: Seq<u16>, x: u16, from: int) -> int
    decreases s.len() - from,
{
    if from < 0 || from >= s.len() {
        s.len() as int
    } else if s[from] >= x {
        from
    } else {
        lower_bound(s, x, from + 1)
    }
}

proof fn lemma_lower_bound(s: Seq<u16>, x: u16, from: int)
    requires
        0 <= from <= s.len(),
    ensures
        from <= lower_bound(s, x, from) <= s.len(),
        forall|j: int| from <= j < lower_bound(s, x, from) ==> s[j] < x,
        lower_bound(s, x, from) < s.len() ==> s[lower_bound(s, x, from)] >= x,
    decreases s.len() - from,
{
    if from < s.len() && s[from] < x {
        lemma_lower_bound(s, x, from + 1);
    }
}

/// `s` with `x` put in its place, unless it is there.
pub open spec fn insert_sorted(s: Seq<u16>, x: u16) -> Seq<u16> {
    let p = lower_bound(s, x, 0);
    if p < s.len() && s[p] == x {
        s
    } else {
        s.insert(p, x)
    }
}

/// The ids of the cosmetics that count toward the loadout, in increasing
/// order, each once.
pub open spec fn loadout(
    ws: Seq<(u32, WearableState)>,
    t: Seq<(u16, InfoModel)>,
    entity: u32,
    gen: u32,
    acct: u32,
) -> Seq<u16>
    decreases ws.len(),
{
    if ws.len() == 0 {
        Seq::empty()
    } else {
        let r = loadout(ws.drop_last(), t, entity, gen, acct);
        let w = ws.last().1;
        if counts_toward(w, entity, gen, acct) && cosmetic_lookup(t, w.item_def_index) is Some {
            insert_sorted(r, w.item_def_index)
        } else {
            r
        }
    }
}

/// The schema's record for `id`.
pub open spec fn info_of(t: Seq<(u16, InfoModel)>, id: u16) -> InfoModel {
    t[table_pos(t, id, t.len() as int)].1
}

/// The records of the cosmetics `ids`.
pub open spec fn loadout_infos(t: Seq<(u16, InfoModel)>, ids: Seq<u16>) -> Seq<InfoModel> {
    ids.map_values(|id: u16| info_of(t, id))
}

/// Whether some two of `infos` conflict.
pub open spec fn any_conflict(infos: Seq<InfoModel>, iq: bool) -> bool {
    exists|a: int, b: int|
        0 <= a < b < infos.len() && (#[trigger] conflict_spec(infos[a], infos[b], iq)) is Some
}

/// `acc` joined with the conflict regions of `infos[a]` with each later item
/// before `j`, in order.
pub open spec fn row_union(infos: Seq<InfoModel>, a: int, j: int, acc: u128, iq: bool) -> u128
    decreases j - a,
{
    if j <= a + 1 {
        acc
    } else {
        row_union(infos, a, j - 1, acc, iq) | conflict_mask(infos[a], infos[j - 1], iq)
    }
}

/// The conflict regions of every pair whose first item is among the first `n`.
pub open spec fn pairs_union(infos: Seq<InfoModel>, n: int, iq: bool) -> u128
    decreases n,
{
    if n <= 0 {
        0
    } else {
        row_union(infos, n - 1, infos.len() as int, pairs_union(infos, n - 1, iq), iq)
    }
}

/// How many of `infos` cover the Hat region.
pub open spec fn hat_count(infos: Seq<InfoModel>) -> nat
    decreases infos.len(),
{
    if infos.len() == 0 {
        0
    } else {
        hat_count(infos.drop_last()) + if has_region(infos.last().regions, hat()) {
            1nat
        } else {
            0nat
        }
    }
}

/// What a loadout is found to break.
pub struct Verdict {
    /// Some two items conflict.
    pub conflict: bool,
    /// More than three items are worn (where that is checked).
    pub excess: bool,
    /// The regions in which items conflict.
    pub regions: u128,
    /// Two hats overlap in the Hat region alone, in a loadout of at most
    /// three: what a loadout preset swap briefly shows.
    pub preset_swap: bool,
}

pub open spec fn verdict(infos: Seq<InfoModel>, p: EquipParams) -> Verdict {
    let c = any_conflict(infos, p.ignore_quickswitch);
    let u = pairs_union(infos, infos.len() as int, p.ignore_quickswitch);
    Verdict {
        conflict: c,
        excess: p.check_cosmetic_limit && infos.len() > 3,
        regions: u,
        preset_swap: c && infos.len() <= 3 && mask_names(u, REGION_COUNT as nat) == seq![hat()]
            && hat_count(infos) == 2,
    }
}

/// The kind of violation reported.
#[derive(Clone, Copy, Debug, PartialEq, Eq, Structural)]
pub enum ViolationKind {
    ConflictAndExcess,
    Conflict,
    ExcessCount,
}

pub open spec fn violation_name(k: ViolationKind) -> Seq<char> {
    match k {
        ViolationKind::ConflictAndExcess => "equip_region_conflict_and_excess_cosmetics"@,
        ViolationKind::Conflict => "equip_region_conflict"@,
        ViolationKind::ExcessCount => "excess_cosmetic_count"@,
    }
}

impl ViolationKind {
    /// The name under which the violation is reported.
    pub fn as_str(&self) -> (s: &'static str)
        ensures
            s@ == violation_name(*self),
    {
        match self {
            ViolationKind::ConflictAndExcess => "equip_region_conflict_and_excess_cosmetics",
            ViolationKind::Conflict => "equip_region_conflict",
            ViolationKind::ExcessCount => "excess_cosmetic_count",
        }
    }
}

/// The player's record at the start of the check: a class change starts a
/// new life, and the class is noted.
pub open spec fn class_update(g0: GenModel, class: PlayerClass, in_pvs: bool) -> GenModel {
    let g1 = if g0.class != PlayerClass::Other && g0.class != class {
        GenModel {
            generation: wrap_inc(g0.generation),
            conflict_ticks: 0,
            post_reset_ticks: 0,
            witnessed_reset: in_pvs,
            ..g0
        }
    } else {
        g0
    };
    GenModel { class, ..g1 }
}

/// The record after a tick with or without a violation, and the duration to
/// report if the loadout is reported now: once the violation has lasted the
/// threshold (counted from a respawn seen in view for a possible preset
/// swap, where those are ignored), and once per loadout.
pub open spec fn tally(
    g: GenModel,
    ids: Seq<u16>,
    violating: bool,
    preset_swap: bool,
    in_pvs: bool,
    p: EquipParams,
) -> (GenModel, Option<u32>) {
    if violating {
        let c = wrap_inc(g.conflict_ticks);
        let pr = if in_pvs && g.witnessed_reset {
            wrap_inc(g.post_reset_ticks)
        } else {
            g.post_reset_ticks
        };
        let swap = p.ignore_preset_swap && preset_swap;
        let can = if swap {
            g.witnessed_reset && pr >= min_ticks(p)
        } else {
            c >= min_ticks(p)
        };
        let report = can && !g.reported.contains(ids);
        (
            GenModel {
                conflict_ticks: c,
                post_reset_ticks: pr,
                reported: if report {
                    g.reported.push(ids)
                } else {
                    g.reported
                },
                ..g
            },
            if report {
                Some(
                    if swap {
                        pr
                    } else {
                        c
                    },
                )
            } else {
                None
            },
        )
    } else if in_pvs {
        (GenModel { conflict_ticks: 0, post_reset_ticks: 0, witnessed_reset: false, ..g }, None)
    } else {
        (GenModel { conflict_ticks: 0, ..g }, None)
    }
}

/// A reported violation.
pub struct FindingModel {
    pub tick: u32,
    pub player: u64,
    pub class: PlayerClass,
    pub kind: ViolationKind,
    pub regions: u128,
    pub ids: Seq<u16>,
    pub duration: u32,
    pub valve_server: bool,
}

/// The SteamID64 a player's Steam3 id gives, 0 where none.
pub open spec fn player_sid(pl: PlayerView) -> u64 {
    match pl.steam_id {
        Some(s) => if s@ == "BOT"@ {
            0
        } else {
            match steam3_id64(s@) {
                Some(x) => x,
                None => 0,
            }
        },
        None => 0,
    }
}

/// One player's check at the current tick.
pub open spec fn player_step(m: EquipModel, t: Seq<(u16, InfoModel)>, valve: bool, pl: PlayerView) -> (
    EquipModel,
    Option<FindingModel>,
) {
    let sid = player_sid(pl);
    if !pl.alive || sid == 0 {
        (m, None)
    } else {
        let g2 = class_update(get_or(m.players, pl.entity, fresh_gen()), pl.class, pl.in_pvs);
        let ids = loadout(m.wearables, t, pl.entity, g2.generation, account_of(sid));
        let v = verdict(loadout_infos(t, ids), m.params);
        let (g3, reported) = tally(g2, ids, v.conflict || v.excess, v.preset_swap, pl.in_pvs, m.params);
        let f = match reported {
            Some(d) => Some(
                FindingModel {
                    tick: m.current_tick,
                    player: sid,
                    class: pl.class,
                    kind: if v.conflict && v.excess {
                        ViolationKind::ConflictAndExcess
                    } else if v.conflict {
                        ViolationKind::Conflict
                    } else {
                        ViolationKind::ExcessCount
                    },
                    regions: v.regions,
                    ids,
                    duration: d,
                    valve_server: valve,
                },
            ),
            None => None,
        };
        (EquipModel { players: put(m.players, pl.entity, g3), ..m }, f)
    }
}

/// The players' checks in order, and what they report.
pub open spec fn tick_fold(
    m: EquipModel,
    t: Seq<(u16, InfoModel)>,
    valve: bool,
    players: Seq<PlayerView>,
) -> (EquipModel, Seq<FindingModel>)
    decreases players.len(),
{
    if players.len() == 0 {
        (m, Seq::empty())
    } else {
        let (m1, fs) = tick_fold(m, t, valve, players.drop_last());
        let (m2, f) = player_step(m1, t, valve, players.last());
        (
            m2,
            match f {
                Some(x) => fs.push(x),
                None => fs,
            },
        )
    }
}

/// Whether the server is one of Valve's matchmaking servers.
pub open spec fn is_valve_server(name: Seq<char>) -> bool {
    contains_seq(name, "Valve Matchmaking Server"@)
}

/// A tick: nothing is checked on a community server where only Valve's are
/// analysed; else each player in turn.
pub open spec fn net_tick(m: EquipModel, tick: u32, t: Seq<(u16, InfoModel)>, players: Seq<PlayerView>) -> (
    EquipModel,
    Seq<FindingModel>,
) {
    let m0 = EquipModel { current_tick: tick, ..m };
    let valve = is_valve_server(m.server_name);
    if m.params.valve_servers_only && !valve {
        (m0, Seq::empty())
    } else {
        tick_fold(m0, t, valve, players)
    }
}

/// A reported violation: who, when, what kind, in which regions, with which
/// cosmetics (by id, with their records), for how many ticks, and on which
/// server.
pub struct EquipFinding {
    pub tick: u32,
    pub player: u64,
    pub class: PlayerClass,
    pub violation: ViolationKind,
    pub conflicting_regions: Vec<&'static str>,
    pub cosmetics: Vec<(u16, CosmeticInfo)>,
    pub duration_ticks: u32,
    pub valve_server: bool,
    pub server_name: String,
}

pub open spec fn finding_matches(
    f: EquipFinding,
    fm: FindingModel,
    t: Seq<(u16, InfoModel)>,
    server: Seq<char>,
) -> bool {
    &&& f.tick == fm.tick
    &&& f.player == fm.player
    &&& f.class == fm.class
    &&& f.violation == fm.kind
    &&& names_view(f.conflicting_regions@, mask_names(fm.regions, REGION_COUNT as nat))
    &&& f.cosmetics@.len() == fm.ids.len()
    &&& forall|i: int|
        0 <= i < fm.ids.len() ==> (#[trigger] f.cosmetics@[i]).0 == fm.ids[i] && f.cosmetics@[i].1@
            == info_of(t, fm.ids[i])
    &&& f.duration_ticks == fm.duration
    &&& f.valve_server == fm.valve_server
    &&& f.server_name@ == server
}

/// Inserting `x` adds `x` and keeps every other id.
pub proof fn lemma_insert_sorted_members(s: Seq<u16>, x: u16)
    ensures
        forall|y: u16| insert_sorted(s, x).contains(y) <==> (s.contains(y) || y == x),
{
    lemma_lower_bound(s, x, 0);
    let p = lower_bound(s, x, 0);
    if p < s.len() && s[p] == x {
    } else {
        let r = s.insert(p, x);
        assert forall|y: u16| r.contains(y) <==> (s.contains(y) || y == x) by {
            if r.contains(y) {
                let k = choose|k: int| 0 <= k < r.len() && r[k] == y;
                if k < p {
                    assert(s[k] == y);
                } else if k > p {
                    assert(s[k - 1] == y);
                }
            }
            if s.contains(y) {
                let k = choose|k: int| 0 <= k < s.len() && s[k] == y;
                if k < p {
                    assert(r[k] == y);
                } else {
                    assert(r[k + 1] == y);
                }
            }
            if y == x {
                assert(r[p] == y);
            }
        }
    }
}

/// Whether the ids of `s` rise strictly.
pub open spec fn strictly_increasing(s: Seq<u16>) -> bool {
    forall|i: int, j: int| 0 <= i < j < s.len() ==> s[i] < s[j]
}

/// Inserting into a strictly increasing list keeps it strictly increasing.
pub proof fn lemma_insert_sorted_increasing(s: Seq<u16>, x: u16)
    requires
        strictly_increasing(s),
    ensures
        strictly_increasing(insert_sorted(s, x)),
{
    lemma_lower_bound(s, x, 0);
    let p = lower_bound(s, x, 0);
    if p < s.len() && s[p] == x {
    } else {
        let r = s.insert(p, x);
        assert forall|i: int, j: int| 0 <= i < j < r.len() implies r[i] < r[j] by {
            if p < s.len() {
                assert(s[p] > x);
            }
            if j < p {
                assert(r[i] == s[i] && r[j] == s[j]);
            } else if j == p {
                assert(r[i] == s[i]);
            } else if i < p {
                assert(r[i] == s[i] && r[j] == s[j - 1]);
                assert(s[i] < x);
                assert(s[j - 1] >= s[p]);
            } else if i == p {
                assert(r[j] == s[j - 1]);
                assert(s[j - 1] >= s[p]);
            } else {
                assert(r[i] == s[i - 1] && r[j] == s[j - 1]);
            }
        }
    }
}

/// A loadout lists its ids in strictly increasing order, and holds exactly
/// the ids of the worn wearables that count toward it and have a cosmetic
/// record: the order in which the wearables are kept does not matter.
pub proof fn lemma_loadout_shape(
    ws: Seq<(u32, WearableState)>,
    t: Seq<(u16, InfoModel)>,
    entity: u32,
    gen: u32,
    acct: u32,
)
    ensures
        strictly_increasing(loadout(ws, t, entity, gen, acct)),
        forall|id: u16|
            #[trigger] loadout(ws, t, entity, gen, acct).contains(id) <==> exists|k: int|
                0 <= k < ws.len() && counts_toward(ws[k].1, entity, gen, acct) && ws[k].1.item_def_index
                    == id && cosmetic_lookup(t, id) is Some,
    decreases ws.len(),
{
    if ws.len() > 0 {
        let rest = ws.drop_last();
        lemma_loadout_shape(rest, t, entity, gen, acct);
        let r = loadout(rest, t, entity, gen, acct);
        let w = ws.last().1;
        if counts_toward(w, entity, gen, acct) && cosmetic_lookup(t, w.item_def_index) is Some {
            lemma_insert_sorted_increasing(r, w.item_def_index);
            lemma_insert_sorted_members(r, w.item_def_index);
        }
        assert forall|id: u16|
            #[trigger] loadout(ws, t, entity, gen, acct).contains(id) <==> exists|k: int|
                0 <= k < ws.len() && counts_toward(ws[k].1, entity, gen, acct) && ws[k].1.item_def_index
                    == id && cosmetic_lookup(t, id) is Some by {
            if exists|k: int|
                0 <= k < ws.len() && counts_toward(ws[k].1, entity, gen, acct) && ws[k].1.item_def_index
                    == id && cosmetic_lookup(t, id) is Some {
                let k = choose|k: int|
                    0 <= k < ws.len() && counts_toward(ws[k].1, entity, gen, acct)
                        && ws[k].1.item_def_index == id && cosmetic_lookup(t, id) is Some;
                if k < ws.len() - 1 {
                    assert(rest[k] == ws[k]);
                }
            }
            if r.contains(id) {
                let k = choose|k: int|
                    0 <= k < rest.len() && counts_toward(rest[k].1, entity, gen, acct)
                        && rest[k].1.item_def_index == id && cosmetic_lookup(t, id) is Some;
                assert(ws[k] == rest[k]);
            }
        }
    }
}

fn counts_toward_exec(w: &WearableState, entity: u32, gen: u32, acct: u32) -> (b: bool)
    ensures
        b == counts_toward(*w, entity, gen, acct),
{
    w.owner == entity && w.spawn_generation == gen && !w.nodraw && !w.is_disguise && (w.account_id
        == 0 || w.account_id == acct) && !is_dummy_or_invalid(w.item_def_index)
        && !is_weapon_wearable(w.item_def_index) && !is_action_item(w.item_def_index)
}

fn insert_sorted_exec(ids: &mut Vec<u16>, x: u16)
    ensures
        final(ids)@ == insert_sorted(old(ids)@, x),
{
    let mut k: usize = 0;
    while k < ids.len() && ids[k] < x
        invariant
            k <= ids@.len(),
            lower_bound(ids@, x, k as int) == lower_bound(ids@, x, 0),
        decreases ids.len() - k,
    {
        k += 1;
    }
    if k < ids.len() && ids[k] == x {
        return;
    }
    ids.insert(k, x);
}

/// The ids of the cosmetics that count toward `entity`'s loadout, with the
/// index of each one's schema entry.
fn collect_loadout(
    ws: &Vec<(u32, WearableState)>,
    table: &CosmeticTable,
    entity: u32,
    gen: u32,
    acct: u32,
) -> (r: (Vec<u16>, Vec<usize>))
    ensures
        r.0@ == loadout(ws@, table@, entity, gen, acct),
        r.1@.len() == r.0@.len(),
        forall|i: int|
            0 <= i < r.0@.len() ==> (#[trigger] r.1@[i]) < table@.len() && table@[r.1@[i] as int].1
                == info_of(table@, r.0@[i]),
{
    let mut ids: Vec<u16> = Vec::new();
    let mut i: usize = 0;
    while i < ws.len()
        invariant
            i <= ws@.len(),
            ids@ == loadout(ws@.subrange(0, i as int), table@, entity, gen, acct),
            forall|k: int|
                0 <= k < ids@.len() ==> table_pos(table@, #[trigger] ids@[k], table@.len() as int)
                    >= 0,
        decreases ws.len() - i,
    {
        assert(ws@.subrange(0, i + 1).drop_last() == ws@.subrange(0, i as int));
        let w = ws[i].1;
        if counts_toward_exec(&w, entity, gen, acct) {
            let id = w.item_def_index;
            if !is_dummy_or_invalid(id) && !is_weapon_wearable(id) && !is_action_item(id) {
                match table.find(id) {
                    Some(_) => {
                        let ghost before = ids@;
                        insert_sorted_exec(&mut ids, id);
                        proof {
                            lemma_insert_sorted_members(before, id);
                        }
                        assert forall|k: int| 0 <= k < ids@.len() implies table_pos(
                            table@,
                            #[trigger] ids@[k],
                            table@.len() as int,
                        ) >= 0 by {
                            assert(before.contains(ids@[k]) || ids@[k] == id);
                            if before.contains(ids@[k]) {
                                let q = choose|q: int| 0 <= q < before.len() && before[q] == ids@[k];
                                assert(table_pos(table@, before[q], table@.len() as int) >= 0);
                            }
                        }
                    },
                    None => {},
                }
            }
        }
        i += 1;
    }
    assert(ws@.subrange(0, ws@.len() as int) == ws@);
    let mut pos: Vec<usize> = Vec::new();
    let mut j: usize = 0;
    while j < ids.len()
        invariant
            j <= ids@.len(),
            forall|k: int|
                0 <= k < ids@.len() ==> table_pos(table@, #[trigger] ids@[k], table@.len() as int)
                    >= 0,
            pos@.len() == j,
            forall|k: int|
                0 <= k < j ==> (#[trigger] pos@[k]) < table@.len() && table@[pos@[k] as int].1
                    == info_of(table@, ids@[k]),
        decreases ids.len() - j,
    {
        match table.find(ids[j]) {
            Some(p) => pos.push(p),
            None => {
                assert(table_pos(table@, ids@[j as int], table@.len() as int) >= 0);
                pos.push(0);
            },
        }
        j += 1;
    }
    (ids, pos)
}

/// Checks the loadout's items pairwise: whether some two conflict, the
/// regions in which any do, and how many cover the Hat region.
fn evaluate(table: &CosmeticTable, ids: &Vec<u16>, pos: &Vec<usize>, iq: bool) -> (r: (
    bool,
    u128,
    usize,
))
    requires
        pos@.len() == ids@.len(),
        forall|i: int|
            0 <= i < ids@.len() ==> (#[trigger] pos@[i]) < table@.len() && table@[pos@[i] as int].1
                == info_of(table@, ids@[i]),
    ensures
        r.0 == any_conflict(loadout_infos(table@, ids@), iq),
        r.1 == pairs_union(loadout_infos(table@, ids@), ids@.len() as int, iq),
        r.2 == hat_count(loadout_infos(table@, ids@)),
{
    let ghost infos = loadout_infos(table@, ids@);
    let n = ids.len();
    assert forall|k: int| 0 <= k < n implies #[trigger] infos[k] == table@[pos@[k] as int].1 by {
        assert(pos@[k] < table@.len());
    }
    let mut found = false;
    let mut acc: u128 = 0;
    let mut i: usize = 0;
    while i < n
        invariant
            n == ids@.len(),
            n == pos@.len(),
            infos == loadout_infos(table@, ids@),
            infos.len() == n,
            forall|k: int| 0 <= k < n ==> (#[trigger] pos@[k]) < table@.len(),
            forall|k: int| 0 <= k < n ==> #[trigger] infos[k] == table@[pos@[k] as int].1,
            i <= n,
            acc == pairs_union(infos, i as int, iq),
            found ==> exists|a: int, b: int|
                0 <= a < b < n && a < i && (#[trigger] conflict_spec(infos[a], infos[b], iq)) is Some,
            !found ==> forall|a: int, b: int|
                0 <= a < b < n && a < i ==> (#[trigger] conflict_spec(infos[a], infos[b], iq)) is None,
        decreases n - i,
    {
        let ghost acc_i = acc;
        let mut racc = acc;
        let mut j: usize = i + 1;
        while j < n
            invariant
                n == ids@.len(),
                n == pos@.len(),
                infos.len() == n,
                forall|k: int| 0 <= k < n ==> (#[trigger] pos@[k]) < table@.len(),
                forall|k: int| 0 <= k < n ==> #[trigger] infos[k] == table@[pos@[k] as int].1,
                i < n,
                i + 1 <= j <= n,
                racc == row_union(infos, i as int, j as int, acc_i, iq),
                found ==> exists|a: int, b: int|
                    0 <= a < b < n && (a < i || (a == i && b < j)) && (#[trigger] conflict_spec(
                        infos[a],
                        infos[b],
                        iq,
                    )) is Some,
                !found ==> forall|a: int, b: int|
                    0 <= a < b < n && (a < i || (a == i && b < j)) ==> (#[trigger] conflict_spec(
                        infos[a],
                        infos[b],
                        iq,
                    )) is None,
            decreases n - j,
        {
            let a = table.info_at(pos[i]);
            let b = table.info_at(pos[j]);
            assert(a@ == infos[i as int]);
            assert(b@ == infos[j as int]);
            let m = conflict_region_mask(a, b, iq);
            if check_cosmetic_conflict(a, b, iq).is_some() {
                found = true;
                assert(conflict_spec(infos[i as int], infos[j as int], iq) is Some);
            }
            racc = racc | m;
            j += 1;
        }
        acc = racc;
        i += 1;
    }
    let mut hats: usize = 0;
    let mut k: usize = 0;
    while k < n
        invariant
            n == ids@.len(),
            n == pos@.len(),
            infos.len() == n,
            forall|q: int| 0 <= q < n ==> (#[trigger] pos@[q]) < table@.len(),
            forall|q: int| 0 <= q < n ==> #[trigger] infos[q] == table@[pos@[q] as int].1,
            k <= n,
            hats as nat == hat_count(infos.subrange(0, k as int)),
            hats <= k,
        decreases n - k,
    {
        assert(infos.subrange(0, k + 1).drop_last() == infos.subrange(0, k as int));
        let info = table.info_at(pos[k]);
        assert(info@ == infos[k as int]);
        if has_region_named(&info.regions, region_name(22)) {
            hats += 1;
        }
        k += 1;
    }
    assert(infos.subrange(0, n as int) == infos);
    (found, acc, hats)
}

fn ids_eq(a: &Vec<u16>, b: &Vec<u16>) -> (r: bool)
    ensures
        r == (a@ == b@),
{
    if a.len() != b.len() {
        return false;
    }
    let mut i: usize = 0;
    while i < a.len()
        invariant
            a@.len() == b@.len(),
            i <= a@.len(),
            forall|k: int| 0 <= k < i ==> a@[k] == b@[k],
        decreases a.len() - i,
    {
        if a[i] != b[i] {
            return false;
        }
        i += 1;
    }
    assert(a@ =~= b@);
    true
}

fn copy_ids(a: &Vec<u16>) -> (r: Vec<u16>)
    ensures
        r@ == a@,
{
    let mut r: Vec<u16> = Vec::new();
    let mut i: usize = 0;
    while i < a.len()
        invariant
            i <= a@.len(),
            r@ == a@.subrange(0, i as int),
        decreases a.len() - i,
    {
        r.push(a[i]);
        i += 1;
    }
    assert(a@.subrange(0, a@.len() as int) == a@);
    r
}

/// Whether `ids` is among the loadouts already reported.
fn reported_contains(reported: &Vec<Vec<u16>>, ids: &Vec<u16>) -> (r: bool)
    ensures
        r == reported@.map_values(|v: Vec<u16>| v@).contains(ids@),
{
    let ghost seen = reported@.map_values(|v: Vec<u16>| v@);
    let mut i: usize = 0;
    while i < reported.len()
        invariant
            i <= reported@.len(),
            seen == reported@.map_values(|v: Vec<u16>| v@),
            forall|k: int| 0 <= k < i ==> (#[trigger] seen[k]) != ids@,
        decreases reported.len() - i,
    {
        if ids_eq(&reported[i], ids) {
            assert(seen[i as int] == ids@);
            return true;
        }
        i += 1;
    }
    false
}

impl PlayerGeneration {
    fn tally_exec(
        &mut self,
        ids: &Vec<u16>,
        violating: bool,
        preset_swap: bool,
        in_pvs: bool,
        p: EquipParams,
    ) -> (r: Option<u32>)
        ensures
            (final(self)@, r) == tally(old(self)@, ids@, violating, preset_swap, in_pvs, p),
    {
        if violating {
            self.conflict_ticks = inc(self.conflict_ticks);
            if in_pvs && self.witnessed_in_pvs_reset {
                self.post_reset_conflict_ticks = inc(self.post_reset_conflict_ticks);
            }
            let min: u32 = if p.min_persistence_ticks < 1 {
                1
            } else {
                p.min_persistence_ticks as u32
            };
            let swap = p.ignore_preset_swap && preset_swap;
            let can = if swap {
                self.witnessed_in_pvs_reset && self.post_reset_conflict_ticks >= min
            } else {
                self.conflict_ticks >= min
            };
            if can && !reported_contains(&self.reported_loadouts, ids) {
                let ghost before = self.reported_loadouts@;
                self.reported_loadouts.push(copy_ids(ids));
                assert(self.reported_loadouts@.map_values(|v: Vec<u16>| v@) =~= before.map_values(
                    |v: Vec<u16>| v@,
                ).push(ids@));
                if swap {
                    Some(self.post_reset_conflict_ticks)
                } else {
                    Some(self.conflict_ticks)
                }
            } else {
                None
            }
        } else {
            self.conflict_ticks = 0;
            if in_pvs {
                self.post_reset_conflict_ticks = 0;
                self.witnessed_in_pvs_reset = false;
            }
            None
        }
    }

    fn class_update_exec(&mut self, class: PlayerClass, in_pvs: bool)
        ensures
            final(self)@ == class_update(old(self)@, class, in_pvs),
    {
        if self.current_class != PlayerClass::Other && self.current_class != class {
            self.generation = inc(self.generation);
            self.conflict_ticks = 0;
            self.post_reset_conflict_ticks = 0;
            self.witnessed_in_pvs_reset = in_pvs;
        }
        self.current_class = class;
    }
}

fn player_sid_exec(pl: &PlayerView) -> (sid: u64)
    ensures
        sid == player_sid(*pl),
{
    match &pl.steam_id {
        Some(s) => if str_eq(s.as_str(), "BOT") {
            0
        } else {
            match parse_steam3(s.as_str()) {
                Some(x) => x,
                None => 0,
            }
        },
        None => 0,
    }
}

fn copy_cosmetics(table: &CosmeticTable, ids: &Vec<u16>, pos: &Vec<usize>) -> (r: Vec<(u16, CosmeticInfo)>)
    requires
        pos@.len() == ids@.len(),
        forall|i: int|
            0 <= i < ids@.len() ==> (#[trigger] pos@[i]) < table@.len() && table@[pos@[i] as int].1
                == info_of(table@, ids@[i]),
    ensures
        r@.len() == ids@.len(),
        forall|i: int|
            0 <= i < ids@.len() ==> (#[trigger] r@[i]).0 == ids@[i] && r@[i].1@ == info_of(table@, ids@[i]),
{
    let mut r: Vec<(u16, CosmeticInfo)> = Vec::new();
    let mut i: usize = 0;
    while i < ids.len()
        invariant
            pos@.len() == ids@.len(),
            forall|k: int|
                0 <= k < ids@.len() ==> (#[trigger] pos@[k]) < table@.len() && table@[pos@[k] as int].1
                    == info_of(table@, ids@[k]),
            i <= ids@.len(),
            r@.len() == i,
            forall|k: int|
                0 <= k < i ==> (#[trigger] r@[k]).0 == ids@[k] && r@[k].1@ == info_of(table@, ids@[k]),
        decreases ids.len() - i,
    {
        assert(pos@[i as int] < table@.len());
        let c = copy_info(table.info_at(pos[i]));
        r.push((ids[i], c));
        i += 1;
    }
    r
}

impl InvalidEquipRegion {
    /// One player's check at the current tick.
    fn step_player(&mut self, table: &CosmeticTable, valve: bool, pl: &PlayerView) -> (r: Option<
        EquipFinding,
    >)
        ensures
            final(self)@ == player_step(old(self)@, table@, valve, *pl).0,
            match player_step(old(self)@, table@, valve, *pl).1 {
                Some(fm) => r matches Some(f) && finding_matches(
                    f,
                    fm,
                    table@,
                    old(self)@.server_name,
                ),
                None => r is None,
            },
    {
        let sid = player_sid_exec(pl);
        if !pl.alive || sid == 0 {
            return None;
        }
        let ghost m = self@;
        let e = pl.entity;
        let j = self.gen_slot(e);
        let ghost ps1 = self@.players;
        let ghost raw = self.players@;
        proof {
            lemma_key_pos(m.players, e, 0);
            lemma_key_pos(ps1, e, 0);
        }
        let mut g = self.take_gen(j);
        assert(ps1[j as int] == (raw[j as int].0, raw[j as int].1@));
        assert(g@ == get_or(m.players, e, fresh_gen()));
        g.class_update_exec(pl.class, pl.in_pvs);
        let ghost g2 = g@;
        let acct = (sid & 0xFFFF_FFFFu64) as u32;
        let (ids, pos) = collect_loadout(&self.wearables, table, e, g.generation, acct);
        assert(ids@ == loadout(m.wearables, table@, e, g2.generation, account_of(sid)));
        let ghost infos = loadout_infos(table@, ids@);
        let (found, union, hats) = evaluate(table, &ids, &pos, self.params.ignore_quickswitch);
        let names = region_mask_to_names(union);
        let n = ids.len();
        let only_hat = names.len() == 1 && str_eq(names[0], region_name(22));
        proof {
            let mn = mask_names(union, REGION_COUNT as nat);
            if only_hat {
                assert(mn =~= seq![hat()]);
            }
            if mn == seq![hat()] {
                assert(names@.len() == 1);
                assert(names@[0]@ == hat());
            }
        }
        let preset = found && n <= 3 && only_hat && hats == 2;
        let excess = self.params.check_cosmetic_limit && n > 3;
        let ghost v = verdict(infos, m.params);
        assert(preset == v.preset_swap);
        assert(excess == v.excess);
        let reported = g.tally_exec(&ids, found || excess, preset, pl.in_pvs, self.params);
        let ghost g3 = g@;
        self.restore_gen(j, g);
        proof {
            Self::lemma_gens_update(raw, j as int, g);
            assert(self.players@ =~= raw.update(j as int, (raw[j as int].0, g)));
            assert(raw[j as int].0 == e);
            assert(ps1.update(j as int, (e, g3)) =~= put(m.players, e, g3));
        }
        match reported {
            Some(d) => {
                let kind = if found && excess {
                    ViolationKind::ConflictAndExcess
                } else if found {
                    ViolationKind::Conflict
                } else {
                    ViolationKind::ExcessCount
                };
                let cosmetics = copy_cosmetics(table, &ids, &pos);
                Some(
                    EquipFinding {
                        tick: self.current_tick,
                        player: sid,
                        class: pl.class,
                        violation: kind,
                        conflicting_regions: names,
                        cosmetics,
                        duration_ticks: d,
                        valve_server: valve,
                        server_name: self.server_name.clone(),
                    },
                )
            },
            None => None,
        }
    }

    /// A tick: on a Valve server (or any, where that is not required), each
    /// living player's worn cosmetics are checked in turn, and the loadouts
    /// found in violation long enough are reported, each once per player.
    pub fn on_net_tick(&mut self, tick: u32, table: &CosmeticTable, players: &Vec<PlayerView>) -> (r:
        Vec<EquipFinding>)
        ensures
            final(self)@ == net_tick(old(self)@, tick, table@, players@).0,
            r@.len() == net_tick(old(self)@, tick, table@, players@).1.len(),
            forall|i: int|
                0 <= i < r@.len() ==> finding_matches(
                    #[trigger] r@[i],
                    net_tick(old(self)@, tick, table@, players@).1[i],
                    table@,
                    old(self)@.server_name,
                ),
    {
        self.current_tick = tick;
        let valve = contains_str(self.server_name.as_str(), "Valve Matchmaking Server");
        let mut out: Vec<EquipFinding> = Vec::new();
        if self.params.valve_servers_only && !valve {
            return out;
        }
        let ghost m0 = self@;
        let mut i: usize = 0;
        while i < players.len()
            invariant
                i <= players@.len(),
                self@ == tick_fold(m0, table@, valve, players@.subrange(0, i as int)).0,
                self@.server_name == m0.server_name,
                out@.len() == tick_fold(m0, table@, valve, players@.subrange(0, i as int)).1.len(),
                forall|k: int|
                    0 <= k < out@.len() ==> finding_matches(
                        #[trigger] out@[k],
                        tick_fold(m0, table@, valve, players@.subrange(0, i as int)).1[k],
                        table@,
                        m0.server_name,
                    ),
            decreases players.len() - i,
        {
            assert(players@.subrange(0, i + 1).drop_last() == players@.subrange(0, i as int));
            match self.step_player(table, valve, &players[i]) {
                Some(f) => out.push(f),
                None => {},
            }
            i += 1;
        }
        assert(players@.subrange(0, players@.len() as int) == players@);
        out
    }
}

} // verus!
