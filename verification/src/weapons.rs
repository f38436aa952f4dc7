//! Weapons: their names, how an aim check treats them, and which attacks
//! are backstabs.
use crate::player::PlayerClass;
use crate::text::{chars_of, contains_seq, contains_str, str_eq, string_of};
use vstd::prelude::*;

verus! {

/// The melee weapon each class starts with.
pub open spec fn stock_melee(class: PlayerClass) -> Seq<char> {
    match class {
        PlayerClass::Scout => "Bat"@,
        PlayerClass::Soldier => "Shovel"@,
        PlayerClass::Pyro => "Fire Axe"@,
        PlayerClass::Demoman => "Bottle"@,
        PlayerClass::Heavy => "Fists"@,
        PlayerClass::Engineer => "Wrench"@,
        PlayerClass::Medic => "Bonesaw"@,
        PlayerClass::Sniper => "Kukri"@,
        PlayerClass::Spy => "Knife"@,
        _ => "Melee"@,
    }
}

fn stock_melee_exec(class: PlayerClass) -> (s: &'static str)
    ensures
        s@ == stock_melee(class),
{
    match class {
        PlayerClass::Scout => "Bat",
        PlayerClass::Soldier => "Shovel",
        PlayerClass::Pyro => "Fire Axe",
        PlayerClass::Demoman => "Bottle",
        PlayerClass::Heavy => "Fists",
        PlayerClass::Engineer => "Wrench",
        PlayerClass::Medic => "Bonesaw",
        PlayerClass::Sniper => "Kukri",
        PlayerClass::Spy => "Knife",
        _ => "Melee",
    }
}

/// The weapon an item definition index names, where it is one the game's
/// stock and unlock weapons use (the class-wide melee ids name the class's
/// stock melee).
pub open spec fn weapon_by_id(id: u16, class: PlayerClass) -> Option<Seq<char>> {
    match id {
        0 | 190 | 221 => Some(stock_melee(class)),
        13 | 200 => Some("Scattergun"@),
        23 | 209 => Some("Pistol"@),
        44 => Some("Sandman"@),
        45 => Some("Force-A-Nature"@),
        46 => Some("Bonk! Atomic Punch"@),
        163 => Some("Crit-a-Cola"@),
        220 => Some("Shortstop"@),
        222 => Some("Mad Milk"@),
        317 => Some("Candy Cane"@),
        325 => Some("Boston Basher"@),
        349 => Some("Sun-on-a-Stick"@),
        355 => Some("Fan O'War"@),
        448 => Some("Soda Popper"@),
        449 => Some("Atomizer"@),
        450 => Some("Winger"@),
        772 => Some("Baby Face's Blaster"@),
        773 => Some("Pretty Boy's Pocket Pistol"@),
        812 => Some("Flying Guillotine"@),
        1103 => Some("Back Scatter"@),
        1121 => Some("Mutated Milk"@),
        18 | 205 => Some("Rocket Launcher"@),
        10 | 199 => Some("Shotgun"@),
        6 | 196 => Some("Shovel"@),
        127 => Some("Direct Hit"@),
        128 => Some("Equalizer"@),
        129 => Some("Buff Banner"@),
        133 => Some("Gunboats"@),
        228 => Some("Black Box"@),
        237 => Some("Rocket Jumper"@),
        265 => Some("Battalion's Backup"@),
        354 => Some("Concheror"@),
        414 => Some("Liberty Launcher"@),
        415 => Some("Reserve Shooter"@),
        416 => Some("Market Gardener"@),
        441 => Some("Cow Mangler 5000"@),
        442 => Some("Righteous Bison"@),
        444 => Some("Mantreads"@),
        447 => Some("Disciplinary Action"@),
        730 => Some("Beggar's Bazooka"@),
        775 => Some("Escape Plan"@),
        1104 => Some("Air Strike"@),
        1101 => Some("B.A.S.E. Jumper"@),
        21 | 208 => Some("Flame Thrower"@),
        2 | 192 => Some("Fire Axe"@),
        38 => Some("Axtinguisher"@),
        39 => Some("Flare Gun"@),
        40 => Some("Backburner"@),
        118 => Some("Homewrecker"@),
        214 => Some("Powerjack"@),
        215 => Some("Degreaser"@),
        326 => Some("Back Scratcher"@),
        348 => Some("Sharpened Volcano Fragment"@),
        351 => Some("Detonator"@),
        400 => Some("Postal Pummeler"@),
        593 => Some("Third Degree"@),
        595 => Some("Manmelter"@),
        740 => Some("Scorch Shot"@),
        810 => Some("Rainblower"@),
        813 => Some("Lollichop"@),
        1178 => Some("Dragon's Fury"@),
        1179 => Some("Thermal Thruster"@),
        1180 => Some("Gas Passer"@),
        1181 => Some("Hot Hand"@),
        19 | 206 => Some("Grenade Launcher"@),
        20 | 207 => Some("Stickybomb Launcher"@),
        1 | 191 => Some("Bottle"@),
        130 => Some("Scottish Resistance"@),
        131 => Some("Chargin' Targe"@),
        132 => Some("Eyelander"@),
        172 => Some("Scotsman's Skullcutter"@),
        266 => Some("Horseless Headless Horsemann's Headtaker"@),
        307 => Some("Ullapool Caber"@),
        308 => Some("Loch-n-Load"@),
        327 => Some("Claidheamh Mòr"@),
        405 => Some("Ali Baba's Wee Booties"@),
        406 => Some("Splendid Screen"@),
        482 => Some("Nessie's Nine Iron"@),
        608 => Some("Bootlegger"@),
        996 => Some("Loose Cannon"@),
        1099 => Some("Tide Turner"@),
        1150 => Some("Quickiebomb Launcher"@),
        1151 => Some("Iron Bomber"@),
        15 | 202 => Some("Minigun"@),
        11 => Some("Shotgun"@),
        5 | 195 => Some("Fists"@),
        42 => Some("Sandvich"@),
        43 => Some("Killing Gloves of Boxing"@),
        159 => Some("Dalokohs Bar"@),
        239 => Some("Gloves of Running Urgently"@),
        310 => Some("Warrior's Spirit"@),
        311 => Some("Buffalo Steak Sandvich"@),
        312 => Some("Brass Beast"@),
        424 => Some("Tomislav"@),
        425 => Some("Family Business"@),
        426 => Some("Eviction Notice"@),
        656 => Some("Holiday Punch"@),
        811 => Some("Huo-Long Heater"@),
        850 => Some("Deflector"@),
        1190 => Some("Second Banana"@),
        9 => Some("Shotgun"@),
        22 => Some("Pistol"@),
        7 | 197 => Some("Wrench"@),
        140 => Some("Wrangler"@),
        141 => Some("Frontier Justice"@),
        142 => Some("Gunslinger"@),
        155 => Some("Southern Hospitality"@),
        169 => Some("Golden Wrench"@),
        329 => Some("Jag"@),
        527 => Some("Widowmaker"@),
        528 => Some("Short Circuit"@),
        588 => Some("Pomson 6000"@),
        589 => Some("Eureka Effect"@),
        1055 => Some("Rescue Ranger"@),
        1086 => Some("Giger Counter"@),
        17 | 204 => Some("Syringe Gun"@),
        29 | 211 => Some("Medi Gun"@),
        8 | 198 => Some("Bonesaw"@),
        35 => Some("Kritzkrieg"@),
        36 => Some("Blutsauger"@),
        37 => Some("Ubersaw"@),
        173 => Some("Vita-Saw"@),
        305 => Some("Crusader's Crossbow"@),
        411 => Some("Quick-Fix"@),
        412 => Some("Overdose"@),
        998 => Some("Vaccinator"@),
        14 | 201 => Some("Sniper Rifle"@),
        16 | 203 => Some("SMG"@),
        3 | 193 => Some("Kukri"@),
        56 => Some("Huntsman"@),
        57 => Some("Razorback"@),
        58 => Some("Jarate"@),
        171 => Some("Tribalman's Shiv"@),
        230 => Some("Sydney Sleeper"@),
        231 => Some("Darwin's Danger Shield"@),
        232 => Some("Bushwacka"@),
        401 => Some("Shahanshah"@),
        402 => Some("Bazaar Bargain"@),
        526 => Some("Machina"@),
        751 => Some("Cleaner's Carbine"@),
        752 => Some("Hitman's Heatmaker"@),
        851 => Some("AWPer Hand"@),
        1092 => Some("Fortified Compound"@),
        1098 => Some("Classic"@),
        1105 => Some("Self-Aware Beauty Mark"@),
        24 | 210 => Some("Revolver"@),
        735 | 736 => Some("Sapper"@),
        4 | 194 => Some("Knife"@),
        27 => Some("Disguise Kit"@),
        30 => Some("Invis Watch"@),
        59 => Some("Dead Ringer"@),
        60 => Some("Cloak and Dagger"@),
        61 => Some("Ambassador"@),
        161 => Some("Big Kill"@),
        224 => Some("L'Etranger"@),
        225 => Some("Your Eternal Reward"@),
        460 => Some("Enforcer"@),
        461 => Some("Big Earner"@),
        525 => Some("Diamondback"@),
        572 => Some("Unarmed Combat"@),
        638 => Some("Sharp Dresser"@),
        649 => Some("Spy-cicle"@),
        830 => Some("Red-Tape Recorder"@),
        264 => Some("Frying Pan"@),
        423 => Some("Saxxy"@),
        474 => Some("Conscientious Objector"@),
        880 => Some("Freedom Staff"@),
        939 => Some("Bat Outta Hell"@),
        1013 => Some("Ham Shank"@),
        1127 => Some("Crossing Guard"@),
        1123 => Some("Necro Smasher"@),
        1182 => Some("Prinny Machete"@),
        _ => None,
    }
}

fn weapon_by_id_exec(id: u16, class: PlayerClass) -> (s: Option<&'static str>)
    ensures
        match weapon_by_id(id, class) {
            Some(n) => s matches Some(x) && x@ == n,
            None => s is None,
        },
{
    match id {
        0 | 190 | 221 => Some(stock_melee_exec(class)),
        13 | 200 => Some("Scattergun"),
        23 | 209 => Some("Pistol"),
        44 => Some("Sandman"),
        45 => Some("Force-A-Nature"),
        46 => Some("Bonk! Atomic Punch"),
        163 => Some("Crit-a-Cola"),
        220 => Some("Shortstop"),
        222 => Some("Mad Milk"),
        317 => Some("Candy Cane"),
        325 => Some("Boston Basher"),
        349 => Some("Sun-on-a-Stick"),
        355 => Some("Fan O'War"),
        448 => Some("Soda Popper"),
        449 => Some("Atomizer"),
        450 => Some("Winger"),
        772 => Some("Baby Face's Blaster"),
        773 => Some("Pretty Boy's Pocket Pistol"),
        812 => Some("Flying Guillotine"),
        1103 => Some("Back Scatter"),
        1121 => Some("Mutated Milk"),
        18 | 205 => Some("Rocket Launcher"),
        10 | 199 => Some("Shotgun"),
        6 | 196 => Some("Shovel"),
        127 => Some("Direct Hit"),
        128 => Some("Equalizer"),
        129 => Some("Buff Banner"),
        133 => Some("Gunboats"),
        228 => Some("Black Box"),
        237 => Some("Rocket Jumper"),
        265 => Some("Battalion's Backup"),
        354 => Some("Concheror"),
        414 => Some("Liberty Launcher"),
        415 => Some("Reserve Shooter"),
        416 => Some("Market Gardener"),
        441 => Some("Cow Mangler 5000"),
        442 => Some("Righteous Bison"),
        444 => Some("Mantreads"),
        447 => Some("Disciplinary Action"),
        730 => Some("Beggar's Bazooka"),
        775 => Some("Escape Plan"),
        1104 => Some("Air Strike"),
        1101 => Some("B.A.S.E. Jumper"),
        21 | 208 => Some("Flame Thrower"),
        2 | 192 => Some("Fire Axe"),
        38 => Some("Axtinguisher"),
        39 => Some("Flare Gun"),
        40 => Some("Backburner"),
        118 => Some("Homewrecker"),
        214 => Some("Powerjack"),
        215 => Some("Degreaser"),
        326 => Some("Back Scratcher"),
        348 => Some("Sharpened Volcano Fragment"),
        351 => Some("Detonator"),
        400 => Some("Postal Pummeler"),
        593 => Some("Third Degree"),
        595 => Some("Manmelter"),
        740 => Some("Scorch Shot"),
        810 => Some("Rainblower"),
        813 => Some("Lollichop"),
        1178 => Some("Dragon's Fury"),
        1179 => Some("Thermal Thruster"),
        1180 => Some("Gas Passer"),
        1181 => Some("Hot Hand"),
        19 | 206 => Some("Grenade Launcher"),
        20 | 207 => Some("Stickybomb Launcher"),
        1 | 191 => Some("Bottle"),
        130 => Some("Scottish Resistance"),
        131 => Some("Chargin' Targe"),
        132 => Some("Eyelander"),
        172 => Some("Scotsman's Skullcutter"),
        266 => Some("Horseless Headless Horsemann's Headtaker"),
        307 => Some("Ullapool Caber"),
        308 => Some("Loch-n-Load"),
        327 => Some("Claidheamh Mòr"),
        405 => Some("Ali Baba's Wee Booties"),
        406 => Some("Splendid Screen"),
        482 => Some("Nessie's Nine Iron"),
        608 => Some("Bootlegger"),
        996 => Some("Loose Cannon"),
        1099 => Some("Tide Turner"),
        1150 => Some("Quickiebomb Launcher"),
        1151 => Some("Iron Bomber"),
        15 | 202 => Some("Minigun"),
        11 => Some("Shotgun"),
        5 | 195 => Some("Fists"),
        42 => Some("Sandvich"),
        43 => Some("Killing Gloves of Boxing"),
        159 => Some("Dalokohs Bar"),
        239 => Some("Gloves of Running Urgently"),
        310 => Some("Warrior's Spirit"),
        311 => Some("Buffalo Steak Sandvich"),
        312 => Some("Brass Beast"),
        424 => Some("Tomislav"),
        425 => Some("Family Business"),
        426 => Some("Eviction Notice"),
        656 => Some("Holiday Punch"),
        811 => Some("Huo-Long Heater"),
        850 => Some("Deflector"),
        1190 => Some("Second Banana"),
        9 => Some("Shotgun"),
        22 => Some("Pistol"),
        7 | 197 => Some("Wrench"),
        140 => Some("Wrangler"),
        141 => Some("Frontier Justice"),
        142 => Some("Gunslinger"),
        155 => Some("Southern Hospitality"),
        169 => Some("Golden Wrench"),
        329 => Some("Jag"),
        527 => Some("Widowmaker"),
        528 => Some("Short Circuit"),
        588 => Some("Pomson 6000"),
        589 => Some("Eureka Effect"),
        1055 => Some("Rescue Ranger"),
        1086 => Some("Giger Counter"),
        17 | 204 => Some("Syringe Gun"),
        29 | 211 => Some("Medi Gun"),
        8 | 198 => Some("Bonesaw"),
        35 => Some("Kritzkrieg"),
        36 => Some("Blutsauger"),
        37 => Some("Ubersaw"),
        173 => Some("Vita-Saw"),
        305 => Some("Crusader's Crossbow"),
        411 => Some("Quick-Fix"),
        412 => Some("Overdose"),
        998 => Some("Vaccinator"),
        14 | 201 => Some("Sniper Rifle"),
        16 | 203 => Some("SMG"),
        3 | 193 => Some("Kukri"),
        56 => Some("Huntsman"),
        57 => Some("Razorback"),
        58 => Some("Jarate"),
        171 => Some("Tribalman's Shiv"),
        230 => Some("Sydney Sleeper"),
        231 => Some("Darwin's Danger Shield"),
        232 => Some("Bushwacka"),
        401 => Some("Shahanshah"),
        402 => Some("Bazaar Bargain"),
        526 => Some("Machina"),
        751 => Some("Cleaner's Carbine"),
        752 => Some("Hitman's Heatmaker"),
        851 => Some("AWPer Hand"),
        1092 => Some("Fortified Compound"),
        1098 => Some("Classic"),
        1105 => Some("Self-Aware Beauty Mark"),
        24 | 210 => Some("Revolver"),
        735 | 736 => Some("Sapper"),
        4 | 194 => Some("Knife"),
        27 => Some("Disguise Kit"),
        30 => Some("Invis Watch"),
        59 => Some("Dead Ringer"),
        60 => Some("Cloak and Dagger"),
        61 => Some("Ambassador"),
        161 => Some("Big Kill"),
        224 => Some("L'Etranger"),
        225 => Some("Your Eternal Reward"),
        460 => Some("Enforcer"),
        461 => Some("Big Earner"),
        525 => Some("Diamondback"),
        572 => Some("Unarmed Combat"),
        638 => Some("Sharp Dresser"),
        649 => Some("Spy-cicle"),
        830 => Some("Red-Tape Recorder"),
        264 => Some("Frying Pan"),
        423 => Some("Saxxy"),
        474 => Some("Conscientious Objector"),
        880 => Some("Freedom Staff"),
        939 => Some("Bat Outta Hell"),
        1013 => Some("Ham Shank"),
        1127 => Some("Crossing Guard"),
        1123 => Some("Necro Smasher"),
        1182 => Some("Prinny Machete"),
        _ => None,
    }
}

/// `s` without the prefix `p`, if it begins with it.
pub open spec fn strip_prefix_seq(s: Seq<char>, p: Seq<char>) -> Option<Seq<char>> {
    if p.len() <= s.len() && s.subrange(0, p.len() as int) == p {
        Some(s.subrange(p.len() as int, s.len() as int))
    } else {
        None
    }
}

/// A server class name without its `CTF` (or else `C`) prefix and then
/// without a `Weapon` prefix.
pub open spec fn clean_class_name(s: Seq<char>) -> Seq<char> {
    let a = match strip_prefix_seq(s, "CTF"@) {
        Some(r) => r,
        None => match strip_prefix_seq(s, "C"@) {
            Some(r) => r,
            None => s,
        },
    };
    match strip_prefix_seq(a, "Weapon"@) {
        Some(r) => r,
        None => a,
    }
}

/// The weapon a cleaned server class name stands for: the class's own name
/// where it is not one of the known ones.
pub open spec fn name_from_class(c: Seq<char>) -> Seq<char> {
    if c == "ScatterGun"@ || c == "Scattergun"@ {
        "Scattergun"@
    } else if c == "Minigun"@ {
        "Minigun"@
    } else if c == "SniperRifle"@ {
        "Sniper Rifle"@
    } else if c == "SniperRifleDecap"@ {
        "Bazaar Bargain"@
    } else if c == "CompoundBow"@ {
        "Huntsman"@
    } else if c == "RocketLauncher_AirStrike"@ || c == "RocketLauncher_Airstrike"@ {
        "Air Strike"@
    } else if c == "RocketLauncher_DirectHit"@ {
        "Direct Hit"@
    } else if c == "RocketLauncher"@ {
        "Rocket Launcher"@
    } else if c == "PipebombLauncher"@ {
        "Stickybomb Launcher"@
    } else if c == "GrenadeLauncher"@ {
        "Grenade Launcher"@
    } else if c == "Cannon"@ {
        "Loose Cannon"@
    } else if c == "Knife"@ {
        "Knife"@
    } else if c == "Revolver"@ {
        "Revolver"@
    } else if c == "Medigun"@ {
        "Medi Gun"@
    } else if c == "FlameThrower"@ {
        "Flame Thrower"@
    } else if c == "Pistol"@ || c == "Pistol_Scout"@ || c == "Pistol_ScoutPrimary"@ || c == "Pistol_ScoutSecondary"@ {
        "Pistol"@
    } else if c == "Shotgun"@ || c == "Shotgun_Soldier"@ || c == "Shotgun_Pyro"@ || c == "Shotgun_HWG"@ || c == "Shotgun_Engineer"@ || c == "Shotgun_Primary"@ {
        "Shotgun"@
    } else if c == "Wrench"@ {
        "Wrench"@
    } else if c == "Bonesaw"@ {
        "Bonesaw"@
    } else if c == "Club"@ {
        "Kukri"@
    } else if c == "Sword"@ {
        "Eyelander"@
    } else if c == "Shovel"@ {
        "Shovel"@
    } else if c == "FireAxe"@ {
        "Fire Axe"@
    } else if c == "Bat"@ || c == "Bat_Wood"@ || c == "Bat_Fish"@ || c == "Bat_Giftwrap"@ {
        "Bat"@
    } else if c == "Fists"@ {
        "Fists"@
    } else if c == "SyringeGun"@ {
        "Syringe Gun"@
    } else if c == "Crossbow"@ {
        "Crusader's Crossbow"@
    } else if c == "SMG"@ {
        "SMG"@
    } else if c == "Jar"@ || c == "JarMilk"@ || c == "JarGas"@ {
        "Jarate"@
    } else if c == "BuffItem"@ {
        "Buff Banner"@
    } else if c == "LunchBox"@ || c == "LunchBox_Drink"@ {
        "Sandvich"@
    } else if c == "LaserPointer"@ {
        "Wrangler"@
    } else if c == "Sapper"@ {
        "Sapper"@
    } else if c == "Invis"@ {
        "Invis Watch"@
    } else if c == ""@ {
        "unknown"@
    } else {
        c
    }
}

/// A weapon's display name from its item definition index if that is a known
/// one, else from its server class name.
pub open spec fn weapon_name_spec(item_def: Option<u16>, class_name: Seq<char>, class: PlayerClass) -> Seq<
    char,
> {
    let by_id = match item_def {
        Some(id) => weapon_by_id(id, class),
        None => None,
    };
    match by_id {
        Some(n) => n,
        None => name_from_class(clean_class_name(class_name)),
    }
}

/// Whether `cs` holds `p` at `at`.
fn has_at(cs: &Vec<char>, at: usize, p: &str) -> (r: bool)
    requires
        at <= cs@.len(),
    ensures
        r == (at + p@.len() <= cs@.len() && cs@.subrange(at as int, at + p@.len()) == p@),
{
    let pc = chars_of(p);
    if pc.len() > cs.len() - at {
        return false;
    }
    let mut i: usize = 0;
    while i < pc.len()
        invariant
            pc@ == p@,
            at + pc@.len() <= cs@.len(),
            at + pc.len() <= cs.len(),
            i <= pc@.len(),
            forall|k: int| 0 <= k < i ==> cs@[at + k] == pc@[k],
        decreases pc.len() - i,
    {
        if cs[at + i] != pc[i] {
            assert(cs@.subrange(at as int, at + p@.len())[i as int] != p@[i as int]);
            return false;
        }
        i += 1;
    }
    assert(cs@.subrange(at as int, at + p@.len()) =~= p@);
    true
}

fn name_from_class_exec(c: &str) -> (r: String)
    ensures
        r@ == name_from_class(c@),
{
    if str_eq(c, "ScatterGun") || str_eq(c, "Scattergun") {
        "Scattergun".to_owned()
    } else if str_eq(c, "Minigun") {
        "Minigun".to_owned()
    } else if str_eq(c, "SniperRifle") {
        "Sniper Rifle".to_owned()
    } else if str_eq(c, "SniperRifleDecap") {
        "Bazaar Bargain".to_owned()
    } else if str_eq(c, "CompoundBow") {
        "Huntsman".to_owned()
    } else if str_eq(c, "RocketLauncher_AirStrike") || str_eq(c, "RocketLauncher_Airstrike") {
        "Air Strike".to_owned()
    } else if str_eq(c, "RocketLauncher_DirectHit") {
        "Direct Hit".to_owned()
    } else if str_eq(c, "RocketLauncher") {
        "Rocket Launcher".to_owned()
    } else if str_eq(c, "PipebombLauncher") {
        "Stickybomb Launcher".to_owned()
    } else if str_eq(c, "GrenadeLauncher") {
        "Grenade Launcher".to_owned()
    } else if str_eq(c, "Cannon") {
        "Loose Cannon".to_owned()
    } else if str_eq(c, "Knife") {
        "Knife".to_owned()
    } else if str_eq(c, "Revolver") {
        "Revolver".to_owned()
    } else if str_eq(c, "Medigun") {
        "Medi Gun".to_owned()
    } else if str_eq(c, "FlameThrower") {
        "Flame Thrower".to_owned()
    } else if str_eq(c, "Pistol") || str_eq(c, "Pistol_Scout") || str_eq(c, "Pistol_ScoutPrimary") || str_eq(c, "Pistol_ScoutSecondary") {
        "Pistol".to_owned()
    } else if str_eq(c, "Shotgun") || str_eq(c, "Shotgun_Soldier") || str_eq(c, "Shotgun_Pyro") || str_eq(c, "Shotgun_HWG") || str_eq(c, "Shotgun_Engineer") || str_eq(c, "Shotgun_Primary") {
        "Shotgun".to_owned()
    } else if str_eq(c, "Wrench") {
        "Wrench".to_owned()
    } else if str_eq(c, "Bonesaw") {
        "Bonesaw".to_owned()
    } else if str_eq(c, "Club") {
        "Kukri".to_owned()
    } else if str_eq(c, "Sword") {
        "Eyelander".to_owned()
    } else if str_eq(c, "Shovel") {
        "Shovel".to_owned()
    } else if str_eq(c, "FireAxe") {
        "Fire Axe".to_owned()
    } else if str_eq(c, "Bat") || str_eq(c, "Bat_Wood") || str_eq(c, "Bat_Fish") || str_eq(c, "Bat_Giftwrap") {
        "Bat".to_owned()
    } else if str_eq(c, "Fists") {
        "Fists".to_owned()
    } else if str_eq(c, "SyringeGun") {
        "Syringe Gun".to_owned()
    } else if str_eq(c, "Crossbow") {
        "Crusader's Crossbow".to_owned()
    } else if str_eq(c, "SMG") {
        "SMG".to_owned()
    } else if str_eq(c, "Jar") || str_eq(c, "JarMilk") || str_eq(c, "JarGas") {
        "Jarate".to_owned()
    } else if str_eq(c, "BuffItem") {
        "Buff Banner".to_owned()
    } else if str_eq(c, "LunchBox") || str_eq(c, "LunchBox_Drink") {
        "Sandvich".to_owned()
    } else if str_eq(c, "LaserPointer") {
        "Wrangler".to_owned()
    } else if str_eq(c, "Sapper") {
        "Sapper".to_owned()
    } else if str_eq(c, "Invis") {
        "Invis Watch".to_owned()
    } else if str_eq(c, "") {
        "unknown".to_owned()
    } else {
        c.to_owned()
    }
}

/// A weapon's display name: the name its item definition index gives where
/// the index is a known one, else the name its server class stands for
/// (`CTFWeaponSniperRifle` gives "Sniper Rifle"), else the cleaned class name
/// itself ("unknown" where nothing is left).
pub fn weapon_name_from_id_or_class(item_def: Option<u16>, class_name: &str, player_class: PlayerClass) -> (r:
    String)
    ensures
        r@ == weapon_name_spec(item_def, class_name@, player_class),
{
    if let Some(id) = item_def {
        if let Some(name) = weapon_by_id_exec(id, player_class) {
            return name.to_owned();
        }
    }
    let cs = chars_of(class_name);
    let mut start: usize = 0;
    if has_at(&cs, 0, "CTF") {
        start = "CTF".unicode_len();
    } else if has_at(&cs, 0, "C") {
        start = "C".unicode_len();
    }
    let ghost a = cs@.subrange(start as int, cs@.len() as int);
    assert(a == match strip_prefix_seq(class_name@, "CTF"@) {
        Some(r) => r,
        None => match strip_prefix_seq(class_name@, "C"@) {
            Some(r) => r,
            None => class_name@,
        },
    });
    let wlen = "Weapon".unicode_len();
    if has_at(&cs, start, "Weapon") {
        assert(a.subrange(0, "Weapon"@.len() as int) == cs@.subrange(start as int, start + "Weapon"@.len()));
        assert(start + wlen <= cs.len());
        start = start + wlen;
    } else {
        proof {
            if "Weapon"@.len() <= a.len() {
                assert(a.subrange(0, "Weapon"@.len() as int) == cs@.subrange(
                    start as int,
                    start + "Weapon"@.len(),
                ));
            }
        }
    }
    let (_, rest) = cs.as_slice().split_at(start);
    let clean = string_of(rest);
    assert(clean@ == clean_class_name(class_name@));
    name_from_class_exec(clean.as_str())
}

/// How an aim check treats a weapon.
#[derive(Clone, Copy, Debug, PartialEq, Eq, Structural)]
pub enum WeaponCategory {
    Hitscan,
    Melee,
    Sapper,
    Projectile,
    Excluded,
}

/// Whether a lowercased weapon name names a sapper weapon.
pub open spec fn sapper_word(lw: Seq<char>) -> bool {
    contains_seq(lw, "sapper"@)
    || contains_seq(lw, "ap-sap"@)
    || contains_seq(lw, "red-tape"@)
    || contains_seq(lw, "builder_spy"@)
}

fn sapper_word_exec(lw: &str) -> (b: bool)
    ensures
        b == sapper_word(lw@),
{
    contains_str(lw, "sapper")
    || contains_str(lw, "ap-sap")
    || contains_str(lw, "red-tape")
    || contains_str(lw, "builder_spy")
}

/// Whether a lowercased weapon name names a excluded weapon.
pub open spec fn excluded_word(lw: Seq<char>) -> bool {
    contains_seq(lw, "medigun"@)
    || contains_seq(lw, "medi gun"@)
    || contains_seq(lw, "kritzkrieg"@)
    || contains_seq(lw, "quick-fix"@)
    || contains_seq(lw, "vaccinator"@)
    || contains_seq(lw, "jumper"@)
    || contains_seq(lw, "parachute"@)
    || contains_seq(lw, "builder"@)
    || contains_seq(lw, "toolbox"@)
    || contains_seq(lw, "pda"@)
    || contains_seq(lw, "destruction"@)
    || contains_seq(lw, "destructor"@)
    || contains_seq(lw, "flamethrower"@)
    || contains_seq(lw, "flame thrower"@)
    || contains_seq(lw, "degreaser"@)
    || contains_seq(lw, "backburner"@)
    || contains_seq(lw, "phlog"@)
    || contains_seq(lw, "rainblower"@)
    || contains_seq(lw, "nostromo"@)
    || contains_seq(lw, "napalm"@)
    || contains_seq(lw, "minigun"@)
    || contains_seq(lw, "iron curtain"@)
    || contains_seq(lw, "natascha"@)
    || contains_seq(lw, "brass beast"@)
    || contains_seq(lw, "tomislav"@)
    || contains_seq(lw, "huo-long"@)
    || contains_seq(lw, "huo long"@)
}

fn excluded_word_exec(lw: &str) -> (b: bool)
    ensures
        b == excluded_word(lw@),
{
    contains_str(lw, "medigun")
    || contains_str(lw, "medi gun")
    || contains_str(lw, "kritzkrieg")
    || contains_str(lw, "quick-fix")
    || contains_str(lw, "vaccinator")
    || contains_str(lw, "jumper")
    || contains_str(lw, "parachute")
    || contains_str(lw, "builder")
    || contains_str(lw, "toolbox")
    || contains_str(lw, "pda")
    || contains_str(lw, "destruction")
    || contains_str(lw, "destructor")
    || contains_str(lw, "flamethrower")
    || contains_str(lw, "flame thrower")
    || contains_str(lw, "degreaser")
    || contains_str(lw, "backburner")
    || contains_str(lw, "phlog")
    || contains_str(lw, "rainblower")
    || contains_str(lw, "nostromo")
    || contains_str(lw, "napalm")
    || contains_str(lw, "minigun")
    || contains_str(lw, "iron curtain")
    || contains_str(lw, "natascha")
    || contains_str(lw, "brass beast")
    || contains_str(lw, "tomislav")
    || contains_str(lw, "huo-long")
    || contains_str(lw, "huo long")
}

/// Whether a lowercased weapon name names a melee weapon.
pub open spec fn melee_word(lw: Seq<char>) -> bool {
    contains_seq(lw, "bat"@)
    || contains_seq(lw, "knife"@)
    || contains_seq(lw, "wrench"@)
    || contains_seq(lw, "shovel"@)
    || contains_seq(lw, "bottle"@)
    || contains_seq(lw, "fire axe"@)
    || contains_seq(lw, "fireaxe"@)
    || contains_seq(lw, "fists"@)
    || contains_seq(lw, "bonesaw"@)
    || contains_seq(lw, "ubersaw"@)
    || contains_seq(lw, "amputator"@)
    || contains_seq(lw, "solemn vow"@)
    || contains_seq(lw, "vita-saw"@)
    || contains_seq(lw, "shahanshah"@)
    || contains_seq(lw, "bushwacka"@)
    || contains_seq(lw, "kukri"@)
    || contains_seq(lw, "tribalman"@)
    || contains_seq(lw, "shiv"@)
    || contains_seq(lw, "eyelander"@)
    || contains_seq(lw, "scotsman"@)
    || contains_seq(lw, "claidheamh"@)
    || contains_seq(lw, "half-zatoichi"@)
    || contains_seq(lw, "persian persuader"@)
    || contains_seq(lw, "nessie"@)
    || contains_seq(lw, "paintrain"@)
    || contains_seq(lw, "pain train"@)
    || contains_seq(lw, "market gardener"@)
    || contains_seq(lw, "disciplinary"@)
    || contains_seq(lw, "escape plan"@)
    || contains_seq(lw, "equalizer"@)
    || contains_seq(lw, "frying pan"@)
    || contains_seq(lw, "golden frying pan"@)
    || contains_seq(lw, "saxxy"@)
    || contains_seq(lw, "conscientious objector"@)
    || contains_seq(lw, "freedom staff"@)
    || contains_seq(lw, "ham shank"@)
    || contains_seq(lw, "necro smasher"@)
    || contains_seq(lw, "crossing guard"@)
    || contains_seq(lw, "prinny machete"@)
    || contains_seq(lw, "gunslinger"@)
    || contains_seq(lw, "southern hospitality"@)
    || contains_seq(lw, "jag"@)
    || contains_seq(lw, "eureka effect"@)
    || contains_seq(lw, "powerjack"@)
    || contains_seq(lw, "backscratcher"@)
    || contains_seq(lw, "sharpened volcano"@)
    || contains_seq(lw, "third degree"@)
    || contains_seq(lw, "maul"@)
    || contains_seq(lw, "gloves"@)
    || contains_seq(lw, "k.g.b."@)
    || contains_seq(lw, "warrior's spirit"@)
    || contains_seq(lw, "fist of steel"@)
    || contains_seq(lw, "eviction notice"@)
    || contains_seq(lw, "holiday punch"@)
    || contains_seq(lw, "sandman"@)
    || contains_seq(lw, "candy cane"@)
    || contains_seq(lw, "boston basher"@)
    || contains_seq(lw, "sun-on-a-stick"@)
    || contains_seq(lw, "fan o'war"@)
    || contains_seq(lw, "atomizer"@)
    || contains_seq(lw, "wrap assassin"@)
    || contains_seq(lw, "spy_cicle"@)
    || contains_seq(lw, "big earner"@)
    || contains_seq(lw, "kunai"@)
    || contains_seq(lw, "eternal reward"@)
    || contains_seq(lw, "melee"@)
}

fn melee_word_exec(lw: &str) -> (b: bool)
    ensures
        b == melee_word(lw@),
{
    contains_str(lw, "bat")
    || contains_str(lw, "knife")
    || contains_str(lw, "wrench")
    || contains_str(lw, "shovel")
    || contains_str(lw, "bottle")
    || contains_str(lw, "fire axe")
    || contains_str(lw, "fireaxe")
    || contains_str(lw, "fists")
    || contains_str(lw, "bonesaw")
    || contains_str(lw, "ubersaw")
    || contains_str(lw, "amputator")
    || contains_str(lw, "solemn vow")
    || contains_str(lw, "vita-saw")
    || contains_str(lw, "shahanshah")
    || contains_str(lw, "bushwacka")
    || contains_str(lw, "kukri")
    || contains_str(lw, "tribalman")
    || contains_str(lw, "shiv")
    || contains_str(lw, "eyelander")
    || contains_str(lw, "scotsman")
    || contains_str(lw, "claidheamh")
    || contains_str(lw, "half-zatoichi")
    || contains_str(lw, "persian persuader")
    || contains_str(lw, "nessie")
    || contains_str(lw, "paintrain")
    || contains_str(lw, "pain train")
    || contains_str(lw, "market gardener")
    || contains_str(lw, "disciplinary")
    || contains_str(lw, "escape plan")
    || contains_str(lw, "equalizer")
    || contains_str(lw, "frying pan")
    || contains_str(lw, "golden frying pan")
    || contains_str(lw, "saxxy")
    || contains_str(lw, "conscientious objector")
    || contains_str(lw, "freedom staff")
    || contains_str(lw, "ham shank")
    || contains_str(lw, "necro smasher")
    || contains_str(lw, "crossing guard")
    || contains_str(lw, "prinny machete")
    || contains_str(lw, "gunslinger")
    || contains_str(lw, "southern hospitality")
    || contains_str(lw, "jag")
    || contains_str(lw, "eureka effect")
    || contains_str(lw, "powerjack")
    || contains_str(lw, "backscratcher")
    || contains_str(lw, "sharpened volcano")
    || contains_str(lw, "third degree")
    || contains_str(lw, "maul")
    || contains_str(lw, "gloves")
    || contains_str(lw, "k.g.b.")
    || contains_str(lw, "warrior's spirit")
    || contains_str(lw, "fist of steel")
    || contains_str(lw, "eviction notice")
    || contains_str(lw, "holiday punch")
    || contains_str(lw, "sandman")
    || contains_str(lw, "candy cane")
    || contains_str(lw, "boston basher")
    || contains_str(lw, "sun-on-a-stick")
    || contains_str(lw, "fan o'war")
    || contains_str(lw, "atomizer")
    || contains_str(lw, "wrap assassin")
    || contains_str(lw, "spy_cicle")
    || contains_str(lw, "big earner")
    || contains_str(lw, "kunai")
    || contains_str(lw, "eternal reward")
    || contains_str(lw, "melee")
}

/// Whether a lowercased weapon name names a projectile weapon.
pub open spec fn projectile_word(lw: Seq<char>) -> bool {
    contains_seq(lw, "rocket"@)
    || contains_seq(lw, "grenade"@)
    || contains_seq(lw, "pipe"@)
    || contains_seq(lw, "stickybomb"@)
    || contains_seq(lw, "sticky"@)
    || contains_seq(lw, "flare"@)
    || contains_seq(lw, "detonator"@)
    || contains_seq(lw, "scorch"@)
    || contains_seq(lw, "manmelter"@)
    || contains_seq(lw, "syringe"@)
    || contains_seq(lw, "crossbow"@)
    || contains_seq(lw, "huntsman"@)
    || contains_seq(lw, "compound bow"@)
    || contains_seq(lw, "rescue ranger"@)
    || contains_seq(lw, "pomson"@)
    || contains_seq(lw, "bison"@)
    || contains_seq(lw, "cow mangler"@)
    || contains_seq(lw, "loch"@)
    || contains_seq(lw, "loose cannon"@)
    || contains_seq(lw, "iron bomber"@)
    || contains_seq(lw, "scottish resistance"@)
    || contains_seq(lw, "direct hit"@)
    || contains_seq(lw, "black box"@)
    || contains_seq(lw, "air strike"@)
    || contains_seq(lw, "liberty launcher"@)
    || contains_seq(lw, "beggar"@)
    || contains_seq(lw, "dragon's fury"@)
}

fn projectile_word_exec(lw: &str) -> (b: bool)
    ensures
        b == projectile_word(lw@),
{
    contains_str(lw, "rocket")
    || contains_str(lw, "grenade")
    || contains_str(lw, "pipe")
    || contains_str(lw, "stickybomb")
    || contains_str(lw, "sticky")
    || contains_str(lw, "flare")
    || contains_str(lw, "detonator")
    || contains_str(lw, "scorch")
    || contains_str(lw, "manmelter")
    || contains_str(lw, "syringe")
    || contains_str(lw, "crossbow")
    || contains_str(lw, "huntsman")
    || contains_str(lw, "compound bow")
    || contains_str(lw, "rescue ranger")
    || contains_str(lw, "pomson")
    || contains_str(lw, "bison")
    || contains_str(lw, "cow mangler")
    || contains_str(lw, "loch")
    || contains_str(lw, "loose cannon")
    || contains_str(lw, "iron bomber")
    || contains_str(lw, "scottish resistance")
    || contains_str(lw, "direct hit")
    || contains_str(lw, "black box")
    || contains_str(lw, "air strike")
    || contains_str(lw, "liberty launcher")
    || contains_str(lw, "beggar")
    || contains_str(lw, "dragon's fury")
}

/// The category of a lowercased weapon name: the first of sapper, excluded
/// (healing, mobility, building tools, flame throwers and miniguns), melee and
/// projectile whose words it contains, else hitscan.
pub open spec fn category_of_lowercase(lw: Seq<char>) -> WeaponCategory {
    if sapper_word(lw) {
        WeaponCategory::Sapper
    } else if excluded_word(lw) {
        WeaponCategory::Excluded
    } else if melee_word(lw) {
        WeaponCategory::Melee
    } else if projectile_word(lw) {
        WeaponCategory::Projectile
    } else {
        WeaponCategory::Hitscan
    }
}

/// Classifies a weapon name already in lower case.
pub fn classify_lowercase(lw: &str) -> (c: WeaponCategory)
    ensures
        c == category_of_lowercase(lw@),
{
    if sapper_word_exec(lw) {
        WeaponCategory::Sapper
    } else if excluded_word_exec(lw) {
        WeaponCategory::Excluded
    } else if melee_word_exec(lw) {
        WeaponCategory::Melee
    } else if projectile_word_exec(lw) {
        WeaponCategory::Projectile
    } else {
        WeaponCategory::Hitscan
    }
}

/// What `str::to_lowercase` gives for `s`: each character's lowercase
/// mapping under Unicode's rules.
pub uninterp spec fn lowercase(s: Seq<char>) -> Seq<char>;

/// Whether every character of `s` is ASCII.
pub open spec fn all_ascii(s: Seq<char>) -> bool {
    forall|i: int| 0 <= i < s.len() ==> (#[trigger] s[i] as u32) < 128
}

/// `s` with the ASCII capitals `A` to `Z` turned into `a` to `z`.
pub open spec fn ascii_lower(s: Seq<char>) -> Seq<char> {
    Seq::new(
        s.len(),
        |i: int|
            if 'A' <= s[i] && s[i] <= 'Z' {
                ((s[i] as u32) + 32) as char
            } else {
                s[i]
            },
    )
}

/// Lowercases with `str::to_lowercase`. Unicode's lowercase mapping depends
/// on the text alone; it is left to `lowercase`. On ASCII text it is the
/// ASCII one: `A` to `Z` become `a` to `z`, everything else stays. What it
/// does to other text is not stated here.
#[verifier::external_body]
pub(crate) fn to_lowercase(s: &str) -> (r: String)
    ensures
        r@ == lowercase(s@),
        all_ascii(s@) ==> r@ == ascii_lower(s@),
{
    s.to_lowercase()
}

/// Classifies a weapon by its name, case aside: Hitscan, Melee, Sapper,
/// Projectile, or Excluded.
pub fn classify_weapon(weapon_name: &str) -> (c: WeaponCategory)
    ensures
        c == category_of_lowercase(lowercase(weapon_name@)),
        all_ascii(weapon_name@) ==> c == category_of_lowercase(ascii_lower(weapon_name@)),
{
    let lw = to_lowercase(weapon_name);
    classify_lowercase(lw.as_str())
}

/// The spread pattern a hitscan weapon fires with.
#[derive(Clone, Copy, Debug, PartialEq, Eq, Structural)]
pub enum SpreadCategory {
    Minigun,
    Smg,
    Pistol,
    Revolver,
    Scattergun,
}

pub open spec fn spread_category_id(c: SpreadCategory) -> u32 {
    match c {
        SpreadCategory::Minigun => 18,
        SpreadCategory::Smg => 16,
        SpreadCategory::Pistol => 22,
        SpreadCategory::Revolver => 24,
        SpreadCategory::Scattergun => 13,
    }
}

pub open spec fn spread_category_name(c: SpreadCategory) -> Seq<char> {
    match c {
        SpreadCategory::Minigun => "Minigun"@,
        SpreadCategory::Smg => "SMG"@,
        SpreadCategory::Pistol => "Pistol"@,
        SpreadCategory::Revolver => "Revolver"@,
        SpreadCategory::Scattergun => "Scattergun"@,
    }
}

impl SpreadCategory {
    /// The category's id: the weapon id that stands for it.
    pub fn category_id(&self) -> (id: u32)
        ensures
            id == spread_category_id(*self),
    {
        match self {
            SpreadCategory::Minigun => 18,
            SpreadCategory::Smg => 16,
            SpreadCategory::Pistol => 22,
            SpreadCategory::Revolver => 24,
            SpreadCategory::Scattergun => 13,
        }
    }

    /// The category's name.
    pub fn name(&self) -> (n: &'static str)
        ensures
            n@ == spread_category_name(*self),
    {
        match self {
            SpreadCategory::Minigun => "Minigun",
            SpreadCategory::Smg => "SMG",
            SpreadCategory::Pistol => "Pistol",
            SpreadCategory::Revolver => "Revolver",
            SpreadCategory::Scattergun => "Scattergun",
        }
    }
}

/// The spread category a weapon id stands for.
pub open spec fn spread_by_id(id: u32) -> Option<SpreadCategory> {
    if id == 18 {
        Some(SpreadCategory::Minigun)
    } else if id == 16 {
        Some(SpreadCategory::Smg)
    } else if id == 22 {
        Some(SpreadCategory::Pistol)
    } else if id == 24 {
        Some(SpreadCategory::Revolver)
    } else if id == 13 || id == 10 || id == 11 || id == 9 || id == 19 || id == 12 {
        Some(SpreadCategory::Scattergun)
    } else {
        None
    }
}

/// The spread category of a weapon: by its id where that is a known one,
/// else by the first of minigun, SMG, pistol, revolver and scattergun whose
/// names, server classes or class names match.
pub open spec fn spread_spec(weapon_id: Option<u32>, name: Seq<char>, class_name: Seq<char>) -> Option<
    SpreadCategory,
> {
    let by_id = match weapon_id {
        Some(id) => spread_by_id(id),
        None => None,
    };
    if by_id is Some {
        by_id
    } else if contains_seq(name, "Minigun"@) || contains_seq(name, "Tomislav"@) || contains_seq(
        name,
        "Brass Beast"@,
    ) || contains_seq(name, "Huo-Long"@) || contains_seq(name, "Deflector"@) || class_name
        == "CTFMinigun"@ || class_name == "heavy"@ {
        Some(SpreadCategory::Minigun)
    } else if contains_seq(name, "SMG"@) || contains_seq(name, "Cleaner's Carbine"@) || class_name
        == "CTFSMG"@ || class_name == "sniper"@ {
        Some(SpreadCategory::Smg)
    } else if contains_seq(name, "Pistol"@) || contains_seq(name, "Winger"@) || contains_seq(
        name,
        "Lugermorph"@,
    ) || contains_seq(name, "Pocket Pistol"@) || contains_seq(class_name, "Pistol"@) {
        Some(SpreadCategory::Pistol)
    } else if contains_seq(name, "Revolver"@) || contains_seq(name, "Ambassador"@) || contains_seq(
        name,
        "Big Kill"@,
    ) || contains_seq(name, "L'Etranger"@) || contains_seq(name, "Enforcer"@) || contains_seq(
        name,
        "Diamondback"@,
    ) || class_name == "CTFRevolver"@ || class_name == "spy"@ {
        Some(SpreadCategory::Revolver)
    } else if contains_seq(name, "Scattergun"@) || contains_seq(name, "Shortstop"@) || contains_seq(
        name,
        "Force-A-Nature"@,
    ) || contains_seq(name, "Soda Popper"@) || contains_seq(name, "Baby Face"@) || contains_seq(
        name,
        "Back Scatter"@,
    ) || contains_seq(name, "Shotgun"@) || contains_seq(class_name, "ScatterGun"@) || contains_seq(
        class_name,
        "Shotgun"@,
    ) || class_name == "scout"@ {
        Some(SpreadCategory::Scattergun)
    } else {
        None
    }
}

/// The spread category of a weapon (its spread cone and factor go with the
/// category), or none for a weapon without a modelled spread.
pub fn spread_category(weapon_id: Option<u32>, weapon_name: &str, class_name: &str) -> (r: Option<
    SpreadCategory,
>)
    ensures
        r == spread_spec(weapon_id, weapon_name@, class_name@),
{
    if let Some(id) = weapon_id {
        if id == 18 {
            return Some(SpreadCategory::Minigun);
        } else if id == 16 {
            return Some(SpreadCategory::Smg);
        } else if id == 22 {
            return Some(SpreadCategory::Pistol);
        } else if id == 24 {
            return Some(SpreadCategory::Revolver);
        } else if id == 13 || id == 10 || id == 11 || id == 9 || id == 19 || id == 12 {
            return Some(SpreadCategory::Scattergun);
        }
    }
    let name = weapon_name;
    if contains_str(name, "Minigun") || contains_str(name, "Tomislav") || contains_str(
        name,
        "Brass Beast",
    ) || contains_str(name, "Huo-Long") || contains_str(name, "Deflector") || str_eq(
        class_name,
        "CTFMinigun",
    ) || str_eq(class_name, "heavy") {
        Some(SpreadCategory::Minigun)
    } else if contains_str(name, "SMG") || contains_str(name, "Cleaner's Carbine") || str_eq(
        class_name,
        "CTFSMG",
    ) || str_eq(class_name, "sniper") {
        Some(SpreadCategory::Smg)
    } else if contains_str(name, "Pistol") || contains_str(name, "Winger") || contains_str(
        name,
        "Lugermorph",
    ) || contains_str(name, "Pocket Pistol") || contains_str(class_name, "Pistol") {
        Some(SpreadCategory::Pistol)
    } else if contains_str(name, "Revolver") || contains_str(name, "Ambassador") || contains_str(
        name,
        "Big Kill",
    ) || contains_str(name, "L'Etranger") || contains_str(name, "Enforcer") || contains_str(
        name,
        "Diamondback",
    ) || str_eq(class_name, "CTFRevolver") || str_eq(class_name, "spy") {
        Some(SpreadCategory::Revolver)
    } else if contains_str(name, "Scattergun") || contains_str(name, "Shortstop") || contains_str(
        name,
        "Force-A-Nature",
    ) || contains_str(name, "Soda Popper") || contains_str(name, "Baby Face") || contains_str(
        name,
        "Back Scatter",
    ) || contains_str(name, "Shotgun") || contains_str(class_name, "ScatterGun") || contains_str(
        class_name,
        "Shotgun",
    ) || str_eq(class_name, "scout") {
        Some(SpreadCategory::Scattergun)
    } else {
        None
    }
}

/// A weapon carrying a spread category's own id is judged in that
/// category, whatever its name and server class; the scattergun family's
/// other ids (9 to 12 and 19) share the scattergun's category.
pub proof fn lemma_spread_category_by_own_id(c: SpreadCategory, name: Seq<char>, class_name: Seq<char>, id: u32)
    ensures
        spread_spec(Some(spread_category_id(c)), name, class_name) == Some(c),
        (9 <= id <= 12 || id == 19) ==> spread_spec(Some(id), name, class_name) == spread_spec(
            Some(spread_category_id(SpreadCategory::Scattergun)),
            name,
            class_name,
        ),
{
}

/// Whether a rocket launcher fires its loaded rockets with spread (the
/// Beggar's Bazooka and the Air Strike).
pub fn is_spread_rocket_launcher(weapon_name: &str) -> (b: bool)
    ensures
        b == (weapon_name@ == "Beggar's Bazooka"@ || weapon_name@ == "Air Strike"@ || contains_seq(
            weapon_name@,
            "Beggar"@,
        ) || contains_seq(weapon_name@, "Air Strike"@) || contains_seq(weapon_name@, "Airstrike"@)),
{
    str_eq(weapon_name, "Beggar's Bazooka") || str_eq(weapon_name, "Air Strike") || contains_str(
        weapon_name,
        "Beggar",
    ) || contains_str(weapon_name, "Air Strike") || contains_str(weapon_name, "Airstrike")
}

/// Whether a projectile's server class is one a player fires (pipes and
/// `CTFProjectile_` classes, sentry rockets aside).
pub fn supported_projectile(class: &str) -> (b: bool)
    ensures
        b == ((class@ == "CTFGrenadePipebombProjectile"@ || strip_prefix_seq(
            class@,
            "CTFProjectile_"@,
        ) is Some) && class@ != "CTFProjectile_SentryRocket"@),
{
    let cs = chars_of(class);
    (str_eq(class, "CTFGrenadePipebombProjectile") || has_at(&cs, 0, "CTFProjectile_")) && !str_eq(
        class,
        "CTFProjectile_SentryRocket",
    )
}

/// Whether a projectile's server class flies on an arc.
pub fn arcing_projectile(class: &str) -> (b: bool)
    ensures
        b == (class@ == "CTFGrenadePipebombProjectile"@ || class@ == "CTFProjectile_Cleaver"@ || class@
            == "CTFProjectile_Jar"@ || class@ == "CTFProjectile_JarMilk"@ || class@
            == "CTFProjectile_ThrowableBreadMonster"@),
{
    str_eq(class, "CTFGrenadePipebombProjectile") || str_eq(class, "CTFProjectile_Cleaver") || str_eq(
        class,
        "CTFProjectile_Jar",
    ) || str_eq(class, "CTFProjectile_JarMilk") || str_eq(class, "CTFProjectile_ThrowableBreadMonster")
}

/// Whether a hit is a backstab: a critical hit with weapon 7 dealing more
/// than 600 damage or more than five and a half times the victim's health.
pub fn is_backstab(damage: u16, is_crit: bool, weapon_id: u16, victim_health: u16) -> (b: bool)
    ensures
        b == (is_crit && weapon_id == 7 && (damage > 600 || 2 * damage > 11 * victim_health)),
{
    is_crit && weapon_id == 7 && (damage > 600 || 2 * (damage as u32) > 11 * (victim_health as u32))
}

/// Whether a hit is the Flying Guillotine's or the Wrap Assassin's: weapon
/// 16 dealing 3 to 8 damage, or 50.
pub fn is_cleaver_or_wrap_assassin(weapon_id: u32, damage: u32) -> (b: bool)
    ensures
        b == ((weapon_id == 16 && 3 <= damage <= 8) || (weapon_id == 16 && damage == 50)),
{
    (weapon_id == 16 && damage <= 8 && damage >= 3) || (weapon_id == 16 && damage == 50)
}

} // verus!
