//! TF2 cosmetic equip regions: which regions an item covers, and which
//! combinations of items a loadout may not hold at once.
use crate::decimal::{parse_unsigned, parse_unsigned_max};
use crate::text::str_eq;
use vstd::prelude::*;

verus! {

/// The number of equip regions in the item schema.
pub const REGION_COUNT: usize = 66;

/// The name of equip region `i` (the regions are numbered in the byte order of
/// their names).
pub open spec fn region_name_spec(i: usize) -> Seq<char> {
    match i {
        0 => "Back"@,
        1 => "arm_tattoos"@,
        2 => "arms"@,
        3 => "back"@,
        4 => "beard"@,
        5 => "belt_misc"@,
        6 => "demo_belt"@,
        7 => "demo_eyepatch"@,
        8 => "demo_head_replacement"@,
        9 => "demoman_collar"@,
        10 => "disconnected_floating_item"@,
        11 => "ears"@,
        12 => "engineer_belt"@,
        13 => "engineer_hair"@,
        14 => "engineer_left_arm"@,
        15 => "engineer_pocket"@,
        16 => "engineer_wings"@,
        17 => "face"@,
        18 => "feet"@,
        19 => "flair"@,
        20 => "glasses"@,
        21 => "grenades"@,
        22 => "hat"@,
        23 => "head_skin"@,
        24 => "heavy_belt"@,
        25 => "heavy_belt_back"@,
        26 => "heavy_bullets"@,
        27 => "heavy_hair"@,
        28 => "heavy_hip"@,
        29 => "heavy_pocket"@,
        30 => "heavy_towel"@,
        31 => "left_shoulder"@,
        32 => "lenses"@,
        33 => "medal"@,
        34 => "medic_gloves"@,
        35 => "medic_hip"@,
        36 => "medic_pipe"@,
        37 => "medigun_accessories"@,
        38 => "necklace"@,
        39 => "pants"@,
        40 => "pyro_head_replacement"@,
        41 => "pyro_spikes"@,
        42 => "pyro_tail"@,
        43 => "pyro_wings"@,
        44 => "right_shoulder"@,
        45 => "scout_backpack"@,
        46 => "scout_bandages"@,
        47 => "scout_hands"@,
        48 => "scout_pants"@,
        49 => "scout_wings"@,
        50 => "shirt"@,
        51 => "sleeves"@,
        52 => "sniper_bullets"@,
        53 => "sniper_headband"@,
        54 => "sniper_legs"@,
        55 => "sniper_pocket"@,
        56 => "sniper_pocket_left"@,
        57 => "sniper_quiver"@,
        58 => "sniper_vest"@,
        59 => "soldier_cigar"@,
        60 => "soldier_coat"@,
        61 => "soldier_legs"@,
        62 => "soldier_pocket"@,
        63 => "spy_coat"@,
        64 => "whole_head"@,
        65 => "zombie_body"@,
        _ => Seq::empty(),
    }
}

/// The name of equip region `i`.
pub fn region_name(i: usize) -> (n: &'static str)
    requires
        i < REGION_COUNT,
    ensures
        n@ == region_name_spec(i),
{
    match i {
        0 => "Back",
        1 => "arm_tattoos",
        2 => "arms",
        3 => "back",
        4 => "beard",
        5 => "belt_misc",
        6 => "demo_belt",
        7 => "demo_eyepatch",
        8 => "demo_head_replacement",
        9 => "demoman_collar",
        10 => "disconnected_floating_item",
        11 => "ears",
        12 => "engineer_belt",
        13 => "engineer_hair",
        14 => "engineer_left_arm",
        15 => "engineer_pocket",
        16 => "engineer_wings",
        17 => "face",
        18 => "feet",
        19 => "flair",
        20 => "glasses",
        21 => "grenades",
        22 => "hat",
        23 => "head_skin",
        24 => "heavy_belt",
        25 => "heavy_belt_back",
        26 => "heavy_bullets",
        27 => "heavy_hair",
        28 => "heavy_hip",
        29 => "heavy_pocket",
        30 => "heavy_towel",
        31 => "left_shoulder",
        32 => "lenses",
        33 => "medal",
        34 => "medic_gloves",
        35 => "medic_hip",
        36 => "medic_pipe",
        37 => "medigun_accessories",
        38 => "necklace",
        39 => "pants",
        40 => "pyro_head_replacement",
        41 => "pyro_spikes",
        42 => "pyro_tail",
        43 => "pyro_wings",
        44 => "right_shoulder",
        45 => "scout_backpack",
        46 => "scout_bandages",
        47 => "scout_hands",
        48 => "scout_pants",
        49 => "scout_wings",
        50 => "shirt",
        51 => "sleeves",
        52 => "sniper_bullets",
        53 => "sniper_headband",
        54 => "sniper_legs",
        55 => "sniper_pocket",
        56 => "sniper_pocket_left",
        57 => "sniper_quiver",
        58 => "sniper_vest",
        59 => "soldier_cigar",
        60 => "soldier_coat",
        61 => "soldier_legs",
        62 => "soldier_pocket",
        63 => "spy_coat",
        64 => "whole_head",
        65 => "zombie_body",
        _ => "",
    }
}

pub open spec fn is_weapon_wearable_spec(id: u16) -> bool {
    id == 57 || id == 131 || id == 133 || id == 231 || id == 405 || id == 406 || id == 444 || id == 608 || id == 642 || id == 1099 || id == 1101 || id == 1144 || id == 1179 || id == 1180 || id == 1185
}

pub open spec fn is_action_item_spec(id: u16) -> bool {
    id == 280 || id == 281 || id == 282 || id == 283 || id == 284 || id == 286 || id == 288 || id == 362 || id == 489 || id == 493 || id == 542 || id == 673 || id == 788 || id == 1039 || id == 1066 || id == 1069 || id == 1130 || id == 1131 || id == 1132 || id == 1152 || id == 1163 || id == 1167 || id == 5869
}

/// Items worn like cosmetics that are really weapons (shields, boots, packs).
pub fn is_weapon_wearable(id: u16) -> (b: bool)
    ensures
        b == is_weapon_wearable_spec(id),
{
    matches!(id, 57 | 131 | 133 | 231 | 405 | 406 | 444 | 608 | 642 | 1099 | 1101 | 1144 | 1179 | 1180 | 1185)
}

/// Action slot items (noisemakers, taunts, spellbooks and the like).
pub fn is_action_item(id: u16) -> (b: bool)
    ensures
        b == is_action_item_spec(id),
{
    matches!(id, 280 | 281 | 282 | 283 | 284 | 286 | 288 | 362 | 489 | 493 | 542 | 673 | 788 | 1039 | 1066 | 1069 | 1130 | 1131 | 1132 | 1152 | 1163 | 1167 | 5869)
}

/// The placeholder item ids that stand for no item.
pub fn is_dummy_or_invalid(id: u16) -> (b: bool)
    ensures
        b == (id == 0 || id == 65535),
{
    id == 0 || id == 65535
}

/// Whether bit `i` of `mask` is set.
pub open spec fn mask_has(mask: u128, i: u32) -> bool {
    mask & (1u128 << i) != 0
}

/// The names of the regions whose bits `mask` sets among the first `n`, in
/// region order.
pub open spec fn mask_names(mask: u128, n: nat) -> Seq<Seq<char>>
    decreases n,
{
    if n == 0 {
        Seq::empty()
    } else {
        let rest = mask_names(mask, (n - 1) as nat);
        if mask_has(mask, (n - 1) as u32) {
            rest.push(region_name_spec((n - 1) as usize))
        } else {
            rest
        }
    }
}

/// `names` are the views of `out`.
pub open spec fn names_view(out: Seq<&'static str>, names: Seq<Seq<char>>) -> bool {
    &&& out.len() == names.len()
    &&& forall|i: int| 0 <= i < out.len() ==> (#[trigger] out[i])@ == names[i]
}

/// The names of the regions set in `mask`, in region order.
pub fn region_mask_to_names(mask: u128) -> (names: Vec<&'static str>)
    ensures
        names_view(names@, mask_names(mask, REGION_COUNT as nat)),
{
    let mut names: Vec<&'static str> = Vec::new();
    let mut i: u32 = 0;
    while i < REGION_COUNT as u32
        invariant
            i <= REGION_COUNT,
            names_view(names@, mask_names(mask, i as nat)),
        decreases REGION_COUNT - i,
    {
        if (mask & (1u128 << i)) != 0 {
            names.push(region_name(i as usize));
        }
        i += 1;
    }
    names
}

/// The first region named `name` at or after `from`.
pub open spec fn lookup_region(name: Seq<char>, from: int) -> Option<u32>
    decreases REGION_COUNT - from,
{
    if from < 0 || from >= REGION_COUNT {
        None
    } else if region_name_spec(from as usize) == name {
        Some(from as u32)
    } else {
        lookup_region(name, from + 1)
    }
}

/// The number of the region called `name`, if there is one.
pub fn region_index(name: &str) -> (r: Option<u32>)
    ensures
        r == lookup_region(name@, 0),
{
    let mut i: usize = 0;
    while i < REGION_COUNT
        invariant
            i <= REGION_COUNT,
            lookup_region(name@, i as int) == lookup_region(name@, 0),
        decreases REGION_COUNT - i,
    {
        if str_eq(name, region_name(i)) {
            return Some(i as u32);
        }
        i += 1;
    }
    None
}

proof fn lemma_lookup_region_bound(name: Seq<char>, from: int)
    ensures
        lookup_region(name, from) matches Some(i) ==> i < REGION_COUNT,
    decreases REGION_COUNT - from,
{
    if 0 <= from < REGION_COUNT && region_name_spec(from as usize) != name {
        lemma_lookup_region_bound(name, from + 1);
    }
}

/// The mask of the schema regions among `regions` (names the schema does not
/// know are left out).
pub open spec fn regions_mask(regions: Seq<String>) -> u128
    decreases regions.len(),
{
    if regions.len() == 0 {
        0
    } else {
        let rest = regions_mask(regions.drop_last());
        match lookup_region(regions.last()@, 0) {
            Some(i) => rest | (1u128 << i),
            None => rest,
        }
    }
}

/// A cosmetic item from the schema: its name, the regions it covers, and
/// those regions as a mask.
#[derive(Debug, PartialEq, Eq)]
pub struct CosmeticInfo {
    pub name: String,
    pub regions: Vec<String>,
    pub region_mask: u128,
}

/// What a cosmetic record says: its name, its region names and its mask.
pub struct InfoModel {
    pub name: Seq<char>,
    pub regions: Seq<String>,
    pub mask: u128,
}

impl View for CosmeticInfo {
    type V = InfoModel;

    open spec fn view(&self) -> InfoModel {
        InfoModel { name: self.name@, regions: self.regions@, mask: self.region_mask }
    }
}

/// Whether `regions` names the region `name`.
pub open spec fn has_region(regions: Seq<String>, name: Seq<char>) -> bool {
    exists|i: int| 0 <= i < regions.len() && (#[trigger] regions[i])@ == name
}

/// Builds the item's record, computing its mask from its region names.
pub fn cosmetic_info(name: String, regions: Vec<String>) -> (c: CosmeticInfo)
    ensures
        c.name@ == name@,
        c.regions@ == regions@,
        c.region_mask == regions_mask(regions@),
{
    let mut mask: u128 = 0;
    let mut i: usize = 0;
    while i < regions.len()
        invariant
            i <= regions.len(),
            mask == regions_mask(regions@.subrange(0, i as int)),
        decreases regions.len() - i,
    {
        let ghost pre = regions@.subrange(0, i as int);
        let ghost post = regions@.subrange(0, i + 1);
        assert(post.drop_last() == pre);
        assert(post.last() == regions@[i as int]);
        match region_index(regions[i].as_str()) {
            Some(idx) => {
                proof {
                    lemma_lookup_region_bound(regions@[i as int]@, 0);
                }
                mask = mask | (1u128 << idx);
            },
            None => {},
        }
        i += 1;
    }
    assert(regions@.subrange(0, regions@.len() as int) == regions@);
    CosmeticInfo { name, regions, region_mask: mask }
}

/// Whether `regions` holds a region called `name`.
pub fn has_region_named(regions: &Vec<String>, name: &str) -> (b: bool)
    ensures
        b == has_region(regions@, name@),
{
    let mut i: usize = 0;
    while i < regions.len()
        invariant
            i <= regions.len(),
            forall|j: int| 0 <= j < i ==> (#[trigger] regions@[j])@ != name@,
        decreases regions.len() - i,
    {
        if str_eq(regions[i].as_str(), name) {
            return true;
        }
        i += 1;
    }
    false
}

pub open spec fn glasses() -> Seq<char> {
    region_name_spec(20)
}

pub open spec fn face() -> Seq<char> {
    region_name_spec(17)
}

pub open spec fn hat() -> Seq<char> {
    region_name_spec(22)
}

pub open spec fn lenses() -> Seq<char> {
    region_name_spec(32)
}

pub open spec fn whole_head() -> Seq<char> {
    region_name_spec(64)
}

/// Glasses clash with Face, Lenses and Whole Head, whichever item wears which.
pub open spec fn glasses_clash(a: Seq<String>, b: Seq<String>) -> bool {
    ||| has_region(a, glasses()) && (has_region(b, face()) || has_region(b, lenses()) || has_region(
        b,
        whole_head(),
    ))
    ||| has_region(b, glasses()) && (has_region(a, face()) || has_region(a, lenses()) || has_region(
        a,
        whole_head(),
    ))
}

/// Whole Head clashes with Hat, Face and Glasses, whichever item wears which.
pub open spec fn whole_head_clash(a: Seq<String>, b: Seq<String>) -> bool {
    ||| has_region(a, whole_head()) && (has_region(b, hat()) || has_region(b, face()) || has_region(
        b,
        glasses(),
    ))
    ||| has_region(b, whole_head()) && (has_region(a, hat()) || has_region(a, face()) || has_region(
        a,
        glasses(),
    ))
}

/// The regions in which two items conflict: every shared region, plus Glasses
/// and Whole Head for their cross-region clashes unless those are ignored.
pub open spec fn conflict_mask(a: InfoModel, b: InfoModel, ignore_quickswitch: bool) -> u128 {
    let direct = a.mask & b.mask;
    let g: u128 = if !ignore_quickswitch && glasses_clash(a.regions, b.regions) {
        1u128 << 20u32
    } else {
        0
    };
    let w: u128 = if !ignore_quickswitch && whole_head_clash(a.regions, b.regions) {
        1u128 << 64u32
    } else {
        0
    };
    direct | g | w
}

/// Whether two items cannot be worn together, and in which regions.
pub open spec fn conflict_spec(a: InfoModel, b: InfoModel, ignore_quickswitch: bool) -> Option<
    Seq<Seq<char>>,
> {
    let names = mask_names(conflict_mask(a, b, ignore_quickswitch), REGION_COUNT as nat);
    if names.len() == 0 {
        None
    } else {
        Some(names)
    }
}

/// The regions in which two items conflict, as a mask.
pub fn conflict_region_mask(info_a: &CosmeticInfo, info_b: &CosmeticInfo, ignore_quickswitch: bool) -> (m:
    u128)
    ensures
        m == conflict_mask(info_a@, info_b@, ignore_quickswitch),
{
    let direct = info_a.region_mask & info_b.region_mask;
    if !ignore_quickswitch {
        let a = &info_a.regions;
        let b = &info_b.regions;
        let a_glasses = has_region_named(a, region_name(20));
        let b_glasses = has_region_named(b, region_name(20));
        let a_face = has_region_named(a, region_name(17));
        let b_face = has_region_named(b, region_name(17));
        let a_lenses = has_region_named(a, region_name(32));
        let b_lenses = has_region_named(b, region_name(32));
        let a_whole = has_region_named(a, region_name(64));
        let b_whole = has_region_named(b, region_name(64));
        let a_hat = has_region_named(a, region_name(22));
        let b_hat = has_region_named(b, region_name(22));
        let g = (a_glasses && (b_face || b_lenses || b_whole)) || (b_glasses && (a_face || a_lenses
            || a_whole));
        let w = (a_whole && (b_hat || b_face || b_glasses)) || (b_whole && (a_hat || a_face
            || a_glasses));
        let gm: u128 = if g {
            1u128 << 20u32
        } else {
            0
        };
        let wm: u128 = if w {
            1u128 << 64u32
        } else {
            0
        };
        direct | gm | wm
    } else {
        assert(direct == direct | 0u128 | 0u128) by (bit_vector);
        direct
    }
}

/// Checks whether two cosmetic items conflict under the equip region rules,
/// giving the conflicting region names in sorted order.
pub fn check_cosmetic_conflict(info_a: &CosmeticInfo, info_b: &CosmeticInfo, ignore_quickswitch: bool) -> (r:
    Option<Vec<&'static str>>)
    ensures
        match conflict_spec(info_a@, info_b@, ignore_quickswitch) {
            None => r is None,
            Some(names) => r matches Some(v) && names_view(v@, names),
        },
{
    let mask = conflict_region_mask(info_a, info_b, ignore_quickswitch);
    let names = region_mask_to_names(mask);
    if names.len() == 0 {
        None
    } else {
        Some(names)
    }
}

/// Whether `a` comes strictly before `b` in byte order.
pub open spec fn str_lt(a: Seq<char>, b: Seq<char>) -> bool
    decreases a.len(),
{
    if b.len() == 0 {
        false
    } else if a.len() == 0 {
        true
    } else if a[0] != b[0] {
        (a[0] as u32) < (b[0] as u32)
    } else {
        str_lt(a.drop_first(), b.drop_first())
    }
}

/// Region `k` comes before region `k + 1` in byte order.
proof fn lemma_adjacent_names_ascending(k: int)
    requires
        0 <= k < 65,
    ensures
        str_lt(region_name_spec(k as usize), region_name_spec((k + 1) as usize)),
{
    if k == 0 {
        assert(str_lt(region_name_spec(0), region_name_spec(1))) by {
                reveal_strlit("Back");
                reveal_strlit("arm_tattoos");
                reveal_with_fuel(str_lt, 2);
            }
    } else if k == 1 {
        assert(str_lt(region_name_spec(1), region_name_spec(2))) by {
                reveal_strlit("arm_tattoos");
                reveal_strlit("arms");
                reveal_with_fuel(str_lt, 5);
            }
    } else if k == 2 {
        assert(str_lt(region_name_spec(2), region_name_spec(3))) by {
                reveal_strlit("arms");
                reveal_strlit("back");
                reveal_with_fuel(str_lt, 2);
            }
    } else if k == 3 {
        assert(str_lt(region_name_spec(3), region_name_spec(4))) by {
                reveal_strlit("back");
                reveal_strlit("beard");
                reveal_with_fuel(str_lt, 3);
            }
    } else if k == 4 {
        assert(str_lt(region_name_spec(4), region_name_spec(5))) by {
                reveal_strlit("beard");
                reveal_strlit("belt_misc");
                reveal_with_fuel(str_lt, 4);
            }
    } else if k == 5 {
        assert(str_lt(region_name_spec(5), region_name_spec(6))) by {
                reveal_strlit("belt_misc");
                reveal_strlit("demo_belt");
                reveal_with_fuel(str_lt, 2);
            }
    } else if k == 6 {
        assert(str_lt(region_name_spec(6), region_name_spec(7))) by {
                reveal_strlit("demo_belt");
                reveal_strlit("demo_eyepatch");
                reveal_with_fuel(str_lt, 7);
            }
    } else if k == 7 {
        assert(str_lt(region_name_spec(7), region_name_spec(8))) by {
                reveal_strlit("demo_eyepatch");
                reveal_strlit("demo_head_replacement");
                reveal_with_fuel(str_lt, 7);
            }
    } else if k == 8 {
        assert(str_lt(region_name_spec(8), region_name_spec(9))) by {
                reveal_strlit("demo_head_replacement");
                reveal_strlit("demoman_collar");
                reveal_with_fuel(str_lt, 6);
            }
    } else if k == 9 {
        assert(str_lt(region_name_spec(9), region_name_spec(10))) by {
                reveal_strlit("demoman_collar");
                reveal_strlit("disconnected_floating_item");
                reveal_with_fuel(str_lt, 3);
            }
    } else if k == 10 {
        assert(str_lt(region_name_spec(10), region_name_spec(11))) by {
                reveal_strlit("disconnected_floating_item");
                reveal_strlit("ears");
                reveal_with_fuel(str_lt, 2);
            }
    } else if k == 11 {
        assert(str_lt(region_name_spec(11), region_name_spec(12))) by {
                reveal_strlit("ears");
                reveal_strlit("engineer_belt");
                reveal_with_fuel(str_lt, 3);
            }
    } else if k == 12 {
        assert(str_lt(region_name_spec(12), region_name_spec(13))) by {
                reveal_strlit("engineer_belt");
                reveal_strlit("engineer_hair");
                reveal_with_fuel(str_lt, 11);
            }
    } else if k == 13 {
        assert(str_lt(region_name_spec(13), region_name_spec(14))) by {
                reveal_strlit("engineer_hair");
                reveal_strlit("engineer_left_arm");
                reveal_with_fuel(str_lt, 11);
            }
    } else if k == 14 {
        assert(str_lt(region_name_spec(14), region_name_spec(15))) by {
                reveal_strlit("engineer_left_arm");
                reveal_strlit("engineer_pocket");
                reveal_with_fuel(str_lt, 11);
            }
    } else if k == 15 {
        assert(str_lt(region_name_spec(15), region_name_spec(16))) by {
                reveal_strlit("engineer_pocket");
                reveal_strlit("engineer_wings");
                reveal_with_fuel(str_lt, 11);
            }
    } else if k == 16 {
        assert(str_lt(region_name_spec(16), region_name_spec(17))) by {
                reveal_strlit("engineer_wings");
                reveal_strlit("face");
                reveal_with_fuel(str_lt, 2);
            }
    } else if k == 17 {
        assert(str_lt(region_name_spec(17), region_name_spec(18))) by {
                reveal_strlit("face");
                reveal_strlit("feet");
                reveal_with_fuel(str_lt, 3);
            }
    } else if k == 18 {
        assert(str_lt(region_name_spec(18), region_name_spec(19))) by {
                reveal_strlit("feet");
                reveal_strlit("flair");
                reveal_with_fuel(str_lt, 3);
            }
    } else if k == 19 {
        assert(str_lt(region_name_spec(19), region_name_spec(20))) by {
                reveal_strlit("flair");
                reveal_strlit("glasses");
                reveal_with_fuel(str_lt, 2);
            }
    } else if k == 20 {
        assert(str_lt(region_name_spec(20), region_name_spec(21))) by {
                reveal_strlit("glasses");
                reveal_strlit("grenades");
                reveal_with_fuel(str_lt, 3);
            }
    } else if k == 21 {
        assert(str_lt(region_name_spec(21), region_name_spec(22))) by {
                reveal_strlit("grenades");
                reveal_strlit("hat");
                reveal_with_fuel(str_lt, 2);
            }
    } else if k == 22 {
        assert(str_lt(region_name_spec(22), region_name_spec(23))) by {
                reveal_strlit("hat");
                reveal_strlit("head_skin");
                reveal_with_fuel(str_lt, 3);
            }
    } else if k == 23 {
        assert(str_lt(region_name_spec(23), region_name_spec(24))) by {
                reveal_strlit("head_skin");
                reveal_strlit("heavy_belt");
                reveal_with_fuel(str_lt, 5);
            }
    } else if k == 24 {
        assert(str_lt(region_name_spec(24), region_name_spec(25))) by {
                reveal_strlit("heavy_belt");
                reveal_strlit("heavy_belt_back");
                reveal_with_fuel(str_lt, 12);
            }
    } else if k == 25 {
        assert(str_lt(region_name_spec(25), region_name_spec(26))) by {
                reveal_strlit("heavy_belt_back");
                reveal_strlit("heavy_bullets");
                reveal_with_fuel(str_lt, 9);
            }
    } else if k == 26 {
        assert(str_lt(region_name_spec(26), region_name_spec(27))) by {
                reveal_strlit("heavy_bullets");
                reveal_strlit("heavy_hair");
                reveal_with_fuel(str_lt, 8);
            }
    } else if k == 27 {
        assert(str_lt(region_name_spec(27), region_name_spec(28))) by {
                reveal_strlit("heavy_hair");
                reveal_strlit("heavy_hip");
                reveal_with_fuel(str_lt, 9);
            }
    } else if k == 28 {
        assert(str_lt(region_name_spec(28), region_name_spec(29))) by {
                reveal_strlit("heavy_hip");
                reveal_strlit("heavy_pocket");
                reveal_with_fuel(str_lt, 8);
            }
    } else if k == 29 {
        assert(str_lt(region_name_spec(29), region_name_spec(30))) by {
                reveal_strlit("heavy_pocket");
                reveal_strlit("heavy_towel");
                reveal_with_fuel(str_lt, 8);
            }
    } else if k == 30 {
        assert(str_lt(region_name_spec(30), region_name_spec(31))) by {
                reveal_strlit("heavy_towel");
                reveal_strlit("left_shoulder");
                reveal_with_fuel(str_lt, 2);
            }
    } else if k == 31 {
        assert(str_lt(region_name_spec(31), region_name_spec(32))) by {
                reveal_strlit("left_shoulder");
                reveal_strlit("lenses");
                reveal_with_fuel(str_lt, 4);
            }
    } else if k == 32 {
        assert(str_lt(region_name_spec(32), region_name_spec(33))) by {
                reveal_strlit("lenses");
                reveal_strlit("medal");
                reveal_with_fuel(str_lt, 2);
            }
    } else if k == 33 {
        assert(str_lt(region_name_spec(33), region_name_spec(34))) by {
                reveal_strlit("medal");
                reveal_strlit("medic_gloves");
                reveal_with_fuel(str_lt, 5);
            }
    } else if k == 34 {
        assert(str_lt(region_name_spec(34), region_name_spec(35))) by {
                reveal_strlit("medic_gloves");
                reveal_strlit("medic_hip");
                reveal_with_fuel(str_lt, 8);
            }
    } else if k == 35 {
        assert(str_lt(region_name_spec(35), region_name_spec(36))) by {
                reveal_strlit("medic_hip");
                reveal_strlit("medic_pipe");
                reveal_with_fuel(str_lt, 8);
            }
    } else if k == 36 {
        assert(str_lt(region_name_spec(36), region_name_spec(37))) by {
                reveal_strlit("medic_pipe");
                reveal_strlit("medigun_accessories");
                reveal_with_fuel(str_lt, 6);
            }
    } else if k == 37 {
        assert(str_lt(region_name_spec(37), region_name_spec(38))) by {
                reveal_strlit("medigun_accessories");
                reveal_strlit("necklace");
                reveal_with_fuel(str_lt, 2);
            }
    } else if k == 38 {
        assert(str_lt(region_name_spec(38), region_name_spec(39))) by {
                reveal_strlit("necklace");
                reveal_strlit("pants");
                reveal_with_fuel(str_lt, 2);
            }
    } else if k == 39 {
        assert(str_lt(region_name_spec(39), region_name_spec(40))) by {
                reveal_strlit("pants");
                reveal_strlit("pyro_head_replacement");
                reveal_with_fuel(str_lt, 3);
            }
    } else if k == 40 {
        assert(str_lt(region_name_spec(40), region_name_spec(41))) by {
                reveal_strlit("pyro_head_replacement");
                reveal_strlit("pyro_spikes");
                reveal_with_fuel(str_lt, 7);
            }
    } else if k == 41 {
        assert(str_lt(region_name_spec(41), region_name_spec(42))) by {
                reveal_strlit("pyro_spikes");
                reveal_strlit("pyro_tail");
                reveal_with_fuel(str_lt, 7);
            }
    } else if k == 42 {
        assert(str_lt(region_name_spec(42), region_name_spec(43))) by {
                reveal_strlit("pyro_tail");
                reveal_strlit("pyro_wings");
                reveal_with_fuel(str_lt, 7);
            }
    } else if k == 43 {
        assert(str_lt(region_name_spec(43), region_name_spec(44))) by {
                reveal_strlit("pyro_wings");
                reveal_strlit("right_shoulder");
                reveal_with_fuel(str_lt, 2);
            }
    } else if k == 44 {
        assert(str_lt(region_name_spec(44), region_name_spec(45))) by {
                reveal_strlit("right_shoulder");
                reveal_strlit("scout_backpack");
                reveal_with_fuel(str_lt, 2);
            }
    } else if k == 45 {
        assert(str_lt(region_name_spec(45), region_name_spec(46))) by {
                reveal_strlit("scout_backpack");
                reveal_strlit("scout_bandages");
                reveal_with_fuel(str_lt, 10);
            }
    } else if k == 46 {
        assert(str_lt(region_name_spec(46), region_name_spec(47))) by {
                reveal_strlit("scout_bandages");
                reveal_strlit("scout_hands");
                reveal_with_fuel(str_lt, 8);
            }
    } else if k == 47 {
        assert(str_lt(region_name_spec(47), region_name_spec(48))) by {
                reveal_strlit("scout_hands");
                reveal_strlit("scout_pants");
                reveal_with_fuel(str_lt, 8);
            }
    } else if k == 48 {
        assert(str_lt(region_name_spec(48), region_name_spec(49))) by {
                reveal_strlit("scout_pants");
                reveal_strlit("scout_wings");
                reveal_with_fuel(str_lt, 8);
            }
    } else if k == 49 {
        assert(str_lt(region_name_spec(49), region_name_spec(50))) by {
                reveal_strlit("scout_wings");
                reveal_strlit("shirt");
                reveal_with_fuel(str_lt, 3);
            }
    } else if k == 50 {
        assert(str_lt(region_name_spec(50), region_name_spec(51))) by {
                reveal_strlit("shirt");
                reveal_strlit("sleeves");
                reveal_with_fuel(str_lt, 3);
            }
    } else if k == 51 {
        assert(str_lt(region_name_spec(51), region_name_spec(52))) by {
                reveal_strlit("sleeves");
                reveal_strlit("sniper_bullets");
                reveal_with_fuel(str_lt, 3);
            }
    } else if k == 52 {
        assert(str_lt(region_name_spec(52), region_name_spec(53))) by {
                reveal_strlit("sniper_bullets");
                reveal_strlit("sniper_headband");
                reveal_with_fuel(str_lt, 9);
            }
    } else if k == 53 {
        assert(str_lt(region_name_spec(53), region_name_spec(54))) by {
                reveal_strlit("sniper_headband");
                reveal_strlit("sniper_legs");
                reveal_with_fuel(str_lt, 9);
            }
    } else if k == 54 {
        assert(str_lt(region_name_spec(54), region_name_spec(55))) by {
                reveal_strlit("sniper_legs");
                reveal_strlit("sniper_pocket");
                reveal_with_fuel(str_lt, 9);
            }
    } else if k == 55 {
        assert(str_lt(region_name_spec(55), region_name_spec(56))) by {
                reveal_strlit("sniper_pocket");
                reveal_strlit("sniper_pocket_left");
                reveal_with_fuel(str_lt, 15);
            }
    } else if k == 56 {
        assert(str_lt(region_name_spec(56), region_name_spec(57))) by {
                reveal_strlit("sniper_pocket_left");
                reveal_strlit("sniper_quiver");
                reveal_with_fuel(str_lt, 9);
            }
    } else if k == 57 {
        assert(str_lt(region_name_spec(57), region_name_spec(58))) by {
                reveal_strlit("sniper_quiver");
                reveal_strlit("sniper_vest");
                reveal_with_fuel(str_lt, 9);
            }
    } else if k == 58 {
        assert(str_lt(region_name_spec(58), region_name_spec(59))) by {
                reveal_strlit("sniper_vest");
                reveal_strlit("soldier_cigar");
                reveal_with_fuel(str_lt, 3);
            }
    } else if k == 59 {
        assert(str_lt(region_name_spec(59), region_name_spec(60))) by {
                reveal_strlit("soldier_cigar");
                reveal_strlit("soldier_coat");
                reveal_with_fuel(str_lt, 11);
            }
    } else if k == 60 {
        assert(str_lt(region_name_spec(60), region_name_spec(61))) by {
                reveal_strlit("soldier_coat");
                reveal_strlit("soldier_legs");
                reveal_with_fuel(str_lt, 10);
            }
    } else if k == 61 {
        assert(str_lt(region_name_spec(61), region_name_spec(62))) by {
                reveal_strlit("soldier_legs");
                reveal_strlit("soldier_pocket");
                reveal_with_fuel(str_lt, 10);
            }
    } else if k == 62 {
        assert(str_lt(region_name_spec(62), region_name_spec(63))) by {
                reveal_strlit("soldier_pocket");
                reveal_strlit("spy_coat");
                reveal_with_fuel(str_lt, 3);
            }
    } else if k == 63 {
        assert(str_lt(region_name_spec(63), region_name_spec(64))) by {
                reveal_strlit("spy_coat");
                reveal_strlit("whole_head");
                reveal_with_fuel(str_lt, 2);
            }
    } else if k == 64 {
        assert(str_lt(region_name_spec(64), region_name_spec(65))) by {
                reveal_strlit("whole_head");
                reveal_strlit("zombie_body");
                reveal_with_fuel(str_lt, 2);
            }
    }
}

/// Byte order is transitive.
proof fn lemma_str_lt_trans(a: Seq<char>, b: Seq<char>, c: Seq<char>)
    requires
        str_lt(a, b),
        str_lt(b, c),
    ensures
        str_lt(a, c),
    decreases a.len(),
{
    if a.len() > 0 && a[0] == b[0] && b[0] == c[0] {
        lemma_str_lt_trans(a.drop_first(), b.drop_first(), c.drop_first());
    }
}

/// The regions are numbered in byte order of their names.
pub proof fn lemma_region_names_ascending(i: int, j: int)
    requires
        0 <= i < j < REGION_COUNT,
    ensures
        str_lt(region_name_spec(i as usize), region_name_spec(j as usize)),
    decreases j - i,
{
    lemma_adjacent_names_ascending(j - 1);
    if i < j - 1 {
        lemma_region_names_ascending(i, j - 1);
        lemma_str_lt_trans(
            region_name_spec(i as usize),
            region_name_spec((j - 1) as usize),
            region_name_spec(j as usize),
        );
    }
}

/// Whether `names` are strictly ascending in byte order.
pub open spec fn strictly_ascending(names: Seq<Seq<char>>) -> bool {
    forall|x: int, y: int| 0 <= x < y < names.len() ==> str_lt(#[trigger] names[x], #[trigger] names[y])
}

/// The names of a mask's regions ascend, and all come before the regions
/// not yet looked at.
proof fn lemma_mask_names_ascending(mask: u128, n: nat)
    requires
        n <= REGION_COUNT,
    ensures
        strictly_ascending(mask_names(mask, n)),
        forall|x: int, j: int|
            0 <= x < mask_names(mask, n).len() && n <= j < REGION_COUNT ==> str_lt(
                #[trigger] mask_names(mask, n)[x],
                #[trigger] region_name_spec(j as usize),
            ),
    decreases n,
{
    if n > 0 {
        let rest = mask_names(mask, (n - 1) as nat);
        lemma_mask_names_ascending(mask, (n - 1) as nat);
        assert forall|x: int, j: int|
            0 <= x < mask_names(mask, n).len() && n <= j < REGION_COUNT implies str_lt(
                #[trigger] mask_names(mask, n)[x],
                #[trigger] region_name_spec(j as usize),
            ) by {
            if x < rest.len() {
                assert(mask_names(mask, n)[x] == rest[x]);
                assert(str_lt(rest[x], region_name_spec(j as usize)));
            } else {
                lemma_region_names_ascending(n - 1, j);
            }
        }
        assert forall|x: int, y: int|
            0 <= x < y < mask_names(mask, n).len() implies str_lt(
                #[trigger] mask_names(mask, n)[x],
                #[trigger] mask_names(mask, n)[y],
            ) by {
            assert(mask_names(mask, n)[x] == rest[x]);
            if y < rest.len() {
                assert(mask_names(mask, n)[y] == rest[y]);
            } else {
                assert(str_lt(rest[x], region_name_spec((n - 1) as usize)));
            }
        }
    }
}

/// A mask whose bits include another's names every region the other names.
proof fn lemma_mask_names_grow(m1: u128, m2: u128, n: nat)
    requires
        forall|i: u32| i < n && #[trigger] mask_has(m1, i) ==> mask_has(m2, i),
    ensures
        forall|x: Seq<char>| mask_names(m1, n).contains(x) ==> #[trigger] mask_names(m2, n).contains(x),
    decreases n,
{
    if n > 0 {
        lemma_mask_names_grow(m1, m2, (n - 1) as nat);
        let r1 = mask_names(m1, (n - 1) as nat);
        let r2 = mask_names(m2, (n - 1) as nat);
        assert forall|x: Seq<char>| mask_names(m1, n).contains(x) implies #[trigger] mask_names(
            m2,
            n,
        ).contains(x) by {
            if r1.contains(x) {
                assert(r2.contains(x));
                let w = choose|w: int| 0 <= w < r2.len() && r2[w] == x;
                assert(mask_names(m2, n)[w] == x);
            } else {
                assert(mask_has(m1, (n - 1) as u32));
                assert(x == region_name_spec((n - 1) as usize));
                assert(mask_names(m2, n)[r2.len() as int] == x);
            }
        }
    }
}

/// The bits of `mask` below `n`.
pub open spec fn low_bits(mask: u128, n: u32) -> u128 {
    mask & !(u128::MAX << n)
}

/// A mask names no region below `n` exactly when it has no bit below `n`.
proof fn lemma_mask_names_empty(mask: u128, n: u32)
    requires
        n <= REGION_COUNT,
    ensures
        mask_names(mask, n as nat).len() == 0 <==> low_bits(mask, n) == 0,
    decreases n,
{
    if n == 0 {
        assert(mask & !(u128::MAX << 0u32) == 0) by (bit_vector);
    } else {
        let k = (n - 1) as u32;
        lemma_mask_names_empty(mask, k);
        assert(mask & !(u128::MAX << n) == 0 <==> (mask & !(u128::MAX << k) == 0 && mask & (1u128 << k) == 0))
            by (bit_vector)
            requires
                1 <= n <= 66,
                k == n - 1,
        ;
    }
}

/// The names of the regions in which two items conflict ascend strictly in
/// byte order; every region named when quickswitch clashes are ignored is
/// also named when they are not; and, ignoring them, two items whose masks
/// hold only known regions conflict exactly when their masks share a bit.
pub proof fn lemma_conflict_names(a: InfoModel, b: InfoModel, ignore_quickswitch: bool)
    ensures
        conflict_spec(a, b, ignore_quickswitch) matches Some(v) ==> v.len() > 0 && strictly_ascending(v),
        forall|x: Seq<char>|
            #![trigger conflict_spec(a, b, true)->Some_0.contains(x)]
            conflict_spec(a, b, true) is Some && conflict_spec(a, b, true)->Some_0.contains(x) ==> (
            conflict_spec(a, b, false) is Some && conflict_spec(a, b, false)->Some_0.contains(x)),
        a.mask < (1u128 << 66u32) ==> (conflict_spec(a, b, true) is None <==> a.mask & b.mask == 0),
{
    let mq = conflict_mask(a, b, ignore_quickswitch);
    lemma_mask_names_ascending(mq, REGION_COUNT as nat);
    let d = a.mask & b.mask;
    let m1 = conflict_mask(a, b, true);
    let m2 = conflict_mask(a, b, false);
    assert(m1 == d | 0u128 | 0u128);
    assert(d | 0u128 | 0u128 == d) by (bit_vector);
    assert forall|i: u32| i < REGION_COUNT && #[trigger] mask_has(m1, i) implies mask_has(m2, i) by {
        let g: u128 = if glasses_clash(a.regions, b.regions) {
            1u128 << 20u32
        } else {
            0
        };
        let w: u128 = if whole_head_clash(a.regions, b.regions) {
            1u128 << 64u32
        } else {
            0
        };
        assert(m2 == d | g | w);
        assert(d & (1u128 << i) != 0 ==> (d | g | w) & (1u128 << i) != 0) by (bit_vector);
    }
    lemma_mask_names_grow(m1, m2, REGION_COUNT as nat);
    assert forall|x: Seq<char>|
        conflict_spec(a, b, true) is Some && conflict_spec(a, b, true)->Some_0.contains(x) implies (
        conflict_spec(a, b, false) is Some && conflict_spec(a, b, false)->Some_0.contains(x)) by {
        assert(mask_names(m1, REGION_COUNT as nat).contains(x));
        assert(mask_names(m2, REGION_COUNT as nat).contains(x));
        assert(mask_names(m2, REGION_COUNT as nat).len() > 0);
    }
    lemma_mask_names_empty(m1, REGION_COUNT as u32);
    let am = a.mask;
    let bm = b.mask;
    assert(am < (1u128 << 66u32) ==> (am & bm) & !(u128::MAX << 66u32) == am & bm) by (bit_vector);
}

/// A mask names every region whose bit it sets.
proof fn lemma_mask_names_has(mask: u128, n: nat, i: u32)
    requires
        i < n,
        mask_has(mask, i),
    ensures
        mask_names(mask, n).contains(region_name_spec(i as usize)),
    decreases n,
{
    let rest = mask_names(mask, (n - 1) as nat);
    if i < n - 1 {
        lemma_mask_names_has(mask, (n - 1) as nat, i);
        let w = choose|w: int| 0 <= w < rest.len() && rest[w] == region_name_spec(i as usize);
        if mask_has(mask, (n - 1) as u32) {
            assert(mask_names(mask, n)[w] == rest[w]);
        }
    } else {
        assert(mask_names(mask, n)[rest.len() as int] == region_name_spec(i as usize));
    }
}

/// The bit of region `i` is set in `x | y | z` when it is set in `x`, in
/// `y` or in `z`.
proof fn lemma_or_keeps_bit(x: u128, y: u128, z: u128, i: u32)
    requires
        i < 128,
        mask_has(x, i) || mask_has(y, i) || mask_has(z, i),
    ensures
        mask_has(x | y | z, i),
{
    assert((x & (1u128 << i) != 0 || y & (1u128 << i) != 0 || z & (1u128 << i) != 0) ==> (x | y | z) & (1u128
        << i) != 0) by (bit_vector)
        requires
            i < 128,
    ;
}

/// The regions two items conflict in: every region both wear, whether or
/// not quickswitch clashes are ignored; and, where they are not ignored,
/// Glasses when one item wears Glasses and the other Face, Lenses or Whole
/// Head, and Whole Head when one wears Whole Head and the other Hat, Face or
/// Glasses.
pub proof fn lemma_conflict_regions(a: InfoModel, b: InfoModel, ignore_quickswitch: bool)
    ensures
        forall|i: u32|
            i < REGION_COUNT && #[trigger] mask_has(a.mask & b.mask, i) ==> conflict_spec(a, b, ignore_quickswitch) is Some
                && conflict_spec(a, b, ignore_quickswitch)->Some_0.contains(region_name_spec(i as usize)),
        !ignore_quickswitch && ((has_region(a.regions, "glasses"@) && (has_region(b.regions, "face"@) || has_region(
            b.regions,
            "lenses"@,
        ) || has_region(b.regions, "whole_head"@))) || (has_region(b.regions, "glasses"@) && (has_region(
            a.regions,
            "face"@,
        ) || has_region(a.regions, "lenses"@) || has_region(a.regions, "whole_head"@)))) ==> conflict_spec(
            a,
            b,
            false,
        ) is Some && conflict_spec(a, b, false)->Some_0.contains("glasses"@),
        !ignore_quickswitch && ((has_region(a.regions, "whole_head"@) && (has_region(b.regions, "hat"@) || has_region(
            b.regions,
            "face"@,
        ) || has_region(b.regions, "glasses"@))) || (has_region(b.regions, "whole_head"@) && (has_region(
            a.regions,
            "hat"@,
        ) || has_region(a.regions, "face"@) || has_region(a.regions, "glasses"@)))) ==> conflict_spec(
            a,
            b,
            false,
        ) is Some && conflict_spec(a, b, false)->Some_0.contains("whole_head"@),
{
    let d = a.mask & b.mask;
    let m = conflict_mask(a, b, ignore_quickswitch);
    let g: u128 = if !ignore_quickswitch && glasses_clash(a.regions, b.regions) {
        1u128 << 20u32
    } else {
        0
    };
    let w: u128 = if !ignore_quickswitch && whole_head_clash(a.regions, b.regions) {
        1u128 << 64u32
    } else {
        0
    };
    assert(m == d | g | w);
    assert forall|i: u32|
        i < REGION_COUNT && #[trigger] mask_has(a.mask & b.mask, i) implies conflict_spec(a, b, ignore_quickswitch) is Some
            && conflict_spec(a, b, ignore_quickswitch)->Some_0.contains(region_name_spec(i as usize)) by {
        lemma_or_keeps_bit(d, g, w, i);
        lemma_mask_names_has(m, REGION_COUNT as nat, i);
    }
    if !ignore_quickswitch {
        assert(glasses() == "glasses"@ && face() == "face"@ && lenses() == "lenses"@ && whole_head() == "whole_head"@
            && hat() == "hat"@);
        if glasses_clash(a.regions, b.regions) {
            assert(mask_has(g, 20)) by {
                assert((1u128 << 20u32) & (1u128 << 20u32) != 0) by (bit_vector);
            }
            lemma_or_keeps_bit(d, g, w, 20);
            lemma_mask_names_has(m, REGION_COUNT as nat, 20);
        }
        if whole_head_clash(a.regions, b.regions) {
            assert(mask_has(w, 64)) by {
                assert((1u128 << 64u32) & (1u128 << 64u32) != 0) by (bit_vector);
            }
            lemma_or_keeps_bit(d, g, w, 64);
            lemma_mask_names_has(m, REGION_COUNT as nat, 64);
        }
    }
}

/// Conflicts do not depend on the order in which the two items are given.
pub proof fn lemma_conflict_symmetric(a: InfoModel, b: InfoModel, ignore_quickswitch: bool)
    ensures
        conflict_mask(a, b, ignore_quickswitch) == conflict_mask(b, a, ignore_quickswitch),
        conflict_spec(a, b, ignore_quickswitch) == conflict_spec(b, a, ignore_quickswitch),
{
    let x = a.mask;
    let y = b.mask;
    assert(x & y == y & x) by (bit_vector);
}

/// A field-by-field copy of an item's record.
pub fn copy_info(c: &CosmeticInfo) -> (r: CosmeticInfo)
    ensures
        r@ == c@,
{
    let mut regions: Vec<String> = Vec::new();
    let mut i: usize = 0;
    while i < c.regions.len()
        invariant
            i <= c.regions@.len(),
            regions@ == c.regions@.subrange(0, i as int),
        decreases c.regions.len() - i,
    {
        regions.push(c.regions[i].clone());
        i += 1;
    }
    assert(c.regions@.subrange(0, c.regions@.len() as int) == c.regions@);
    CosmeticInfo { name: c.name.clone(), regions, region_mask: c.region_mask }
}

/// One entry of the item schema as it is read: the item's id as written (a
/// decimal string), its name, and its equip regions if it lists any.
pub struct SchemaEntry {
    pub id: String,
    pub name: String,
    pub equip_regions: Option<Vec<String>>,
}

/// The cosmetic items of the item schema, by definition index.
pub struct CosmeticTable {
    entries: Vec<(u16, CosmeticInfo)>,
}

/// The view of a table's entries.
pub open spec fn entries_view(v: Seq<(u16, CosmeticInfo)>) -> Seq<(u16, InfoModel)> {
    v.map_values(|e: (u16, CosmeticInfo)| (e.0, e.1@))
}

impl View for CosmeticTable {
    type V = Seq<(u16, InfoModel)>;

    closed spec fn view(&self) -> Seq<(u16, InfoModel)> {
        entries_view(self.entries@)
    }
}

/// The index of the last of the first `n` entries of `t` that has id `id`,
/// or `-1`.
pub open spec fn table_pos(t: Seq<(u16, InfoModel)>, id: u16, n: int) -> int
    decreases n,
{
    if n <= 0 || n > t.len() {
        -1
    } else if t[n - 1].0 == id {
        n - 1
    } else {
        table_pos(t, id, n - 1)
    }
}

proof fn lemma_table_pos_bounds(t: Seq<(u16, InfoModel)>, id: u16, n: int)
    requires
        0 <= n <= t.len(),
    ensures
        -1 <= table_pos(t, id, n) < n,
        table_pos(t, id, n) >= 0 ==> t[table_pos(t, id, n)].0 == id,
    decreases n,
{
    if n > 0 && t[n - 1].0 != id {
        lemma_table_pos_bounds(t, id, n - 1);
    }
}

/// The schema's record for item `id`: the last entry that gives that id.
pub open spec fn schema_entry(t: Seq<(u16, InfoModel)>, id: u16) -> Option<InfoModel> {
    let p = table_pos(t, id, t.len() as int);
    if p < 0 {
        None
    } else {
        Some(t[p].1)
    }
}

/// The cosmetic record of item `id`: none for placeholder ids, weapons worn
/// as wearables and action items, else the schema's record.
pub open spec fn cosmetic_lookup(t: Seq<(u16, InfoModel)>, id: u16) -> Option<InfoModel> {
    if id == 0 || id == 65535 || is_weapon_wearable_spec(id) || is_action_item_spec(id) {
        None
    } else {
        schema_entry(t, id)
    }
}

/// The record an entry of the schema gives.
pub open spec fn entry_model(e: SchemaEntry) -> InfoModel {
    let regions = match e.equip_regions {
        Some(v) => v@,
        None => Seq::empty(),
    };
    InfoModel { name: e.name@, regions, mask: regions_mask(regions) }
}

/// What the table holds after reading `raw`: each entry whose id reads as a
/// 16-bit number, in order.
pub open spec fn table_from(raw: Seq<SchemaEntry>) -> Seq<(u16, InfoModel)>
    decreases raw.len(),
{
    if raw.len() == 0 {
        Seq::empty()
    } else {
        let rest = table_from(raw.drop_last());
        match parse_unsigned(raw.last().id@, u16::MAX as int) {
            Some(id) => rest.push((id as u16, entry_model(raw.last()))),
            None => rest,
        }
    }
}

fn copy_strings(v: &Vec<String>) -> (r: Vec<String>)
    ensures
        r@ == v@,
{
    let mut out: Vec<String> = Vec::new();
    let mut i: usize = 0;
    while i < v.len()
        invariant
            i <= v@.len(),
            out@ == v@.subrange(0, i as int),
        decreases v.len() - i,
    {
        out.push(v[i].clone());
        i += 1;
    }
    assert(v@.subrange(0, v@.len() as int) == v@);
    out
}

impl CosmeticTable {
    /// Reads the schema's entries. An entry whose id is not a 16-bit decimal
    /// number is skipped; where two entries give the same id (`"7"` and
    /// `"07"`), the later one stands.
    pub fn from_entries(raw: &Vec<SchemaEntry>) -> (t: Self)
        ensures
            t@ == table_from(raw@),
    {
        let mut entries: Vec<(u16, CosmeticInfo)> = Vec::new();
        let mut i: usize = 0;
        while i < raw.len()
            invariant
                i <= raw@.len(),
                entries_view(entries@) == table_from(raw@.subrange(0, i as int)),
            decreases raw.len() - i,
        {
            let ghost pre = raw@.subrange(0, i as int);
            assert(raw@.subrange(0, i + 1).drop_last() == pre);
            let e = &raw[i];
            match parse_unsigned_max(e.id.as_str(), 65535) {
                Some(id) => {
                    let regions = match &e.equip_regions {
                        Some(v) => copy_strings(v),
                        None => Vec::new(),
                    };
                    let info = cosmetic_info(e.name.clone(), regions);
                    entries.push((id as u16, info));
                    assert(entries_view(entries@) == table_from(raw@.subrange(0, i + 1)));
                },
                None => {},
            }
            i += 1;
        }
        assert(raw@.subrange(0, raw@.len() as int) == raw@);
        CosmeticTable { entries }
    }

    /// The index of the entry that gives item `id` (the last one), if any.
    pub(crate) fn find(&self, id: u16) -> (r: Option<usize>)
        ensures
            match r {
                Some(p) => p as int == table_pos(self@, id, self@.len() as int) && p < self@.len(),
                None => table_pos(self@, id, self@.len() as int) == -1,
            },
    {
        let mut n = self.entries.len();
        while n > 0
            invariant
                n <= self.entries@.len(),
                self@.len() == self.entries@.len(),
                table_pos(self@, id, n as int) == table_pos(self@, id, self@.len() as int),
            decreases n,
        {
            if self.entries[n - 1].0 == id {
                return Some(n - 1);
            }
            n -= 1;
        }
        None
    }

    /// The record of the entry at `p`.
    pub(crate) fn info_at(&self, p: usize) -> (c: &CosmeticInfo)
        requires
            p < self@.len(),
        ensures
            c@ == self@[p as int].1,
    {
        &self.entries[p].1
    }
}

/// Resolves cosmetic info by item definition index from the item schema:
/// none for placeholder ids, weapons worn as wearables and action items.
pub fn get_cosmetic_info(table: &CosmeticTable, id: u16) -> (r: Option<CosmeticInfo>)
    ensures
        match cosmetic_lookup(table@, id) {
            Some(m) => r matches Some(c) && c@ == m,
            None => r is None,
        },
{
    if is_dummy_or_invalid(id) || is_weapon_wearable(id) || is_action_item(id) {
        return None;
    }
    match table.find(id) {
        Some(p) => Some(copy_info(table.info_at(p))),
        None => None,
    }
}

} // verus!
