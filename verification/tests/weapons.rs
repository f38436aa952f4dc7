use tf2_demo_player::player::PlayerClass;
use tf2_demo_player::weapons::{
    arcing_projectile, classify_lowercase, classify_weapon, is_backstab, is_cleaver_or_wrap_assassin,
    is_spread_rocket_launcher, spread_category, supported_projectile, weapon_name_from_id_or_class,
    SpreadCategory, WeaponCategory,
};

#[test]
fn test_damaging_weapons_classification() {
    // Continuous flame stream weapons and miniguns must be Excluded (silent aim impossible / non-existent)
    assert_eq!(classify_weapon("Flame Thrower"), WeaponCategory::Excluded);
    assert_eq!(classify_weapon("Degreaser"), WeaponCategory::Excluded);
    assert_eq!(classify_weapon("Backburner"), WeaponCategory::Excluded);
    assert_eq!(classify_weapon("The Phlogistinator"), WeaponCategory::Excluded);
    assert_eq!(classify_weapon("Rainblower"), WeaponCategory::Excluded);
    assert_eq!(classify_weapon("Nostromo Napalmer"), WeaponCategory::Excluded);
    assert_eq!(classify_weapon("Minigun"), WeaponCategory::Excluded);
    assert_eq!(classify_weapon("Iron Curtain"), WeaponCategory::Excluded);
    assert_eq!(classify_weapon("Tomislav"), WeaponCategory::Excluded);
    assert_eq!(classify_weapon("Natascha"), WeaponCategory::Excluded);
    assert_eq!(classify_weapon("The Brass Beast"), WeaponCategory::Excluded);
    assert_eq!(classify_weapon("Huo-Long Heater"), WeaponCategory::Excluded);

    // Projectile weapons that fire discrete projectiles
    assert_eq!(classify_weapon("Dragon's Fury"), WeaponCategory::Projectile);
    assert_eq!(classify_weapon("Rocket Launcher"), WeaponCategory::Projectile);
    assert_eq!(classify_weapon("Grenade Launcher"), WeaponCategory::Projectile);
    assert_eq!(classify_weapon("Stickybomb Launcher"), WeaponCategory::Projectile);

    // Non-damaging mobility and healing items must be Excluded
    assert_eq!(classify_weapon("Medi Gun"), WeaponCategory::Excluded);
    assert_eq!(classify_weapon("The Kritzkrieg"), WeaponCategory::Excluded);
    assert_eq!(classify_weapon("The Quick-Fix"), WeaponCategory::Excluded);
    assert_eq!(classify_weapon("The Vaccinator"), WeaponCategory::Excluded);
    assert_eq!(classify_weapon("Rocket Jumper"), WeaponCategory::Excluded);
    assert_eq!(classify_weapon("Sticky Jumper"), WeaponCategory::Excluded);
    assert_eq!(classify_weapon("The B.A.S.E. Jumper"), WeaponCategory::Excluded);

    // Engineer building tools and PDAs must be Excluded
    assert_eq!(classify_weapon("Builder"), WeaponCategory::Excluded);
    assert_eq!(classify_weapon("Toolbox"), WeaponCategory::Excluded);
    assert_eq!(classify_weapon("Construction PDA"), WeaponCategory::Excluded);
    assert_eq!(classify_weapon("Destruction PDA"), WeaponCategory::Excluded);
}

#[test]
fn classification_ignores_case_and_defaults_to_hitscan() {
    assert_eq!(classify_weapon("FLAME THROWER"), WeaponCategory::Excluded);
    assert_eq!(classify_weapon("Ap-Sap"), WeaponCategory::Sapper);
    assert_eq!(classify_weapon("Knife"), WeaponCategory::Melee);
    assert_eq!(classify_weapon("Scattergun"), WeaponCategory::Hitscan);
    assert_eq!(classify_weapon("Sniper Rifle"), WeaponCategory::Hitscan);
    // The lowercase entry point sees the text as given.
    assert_eq!(classify_lowercase("FLAME THROWER"), WeaponCategory::Hitscan);
    assert_eq!(classify_lowercase("flame thrower"), WeaponCategory::Excluded);
}

#[test]
fn weapon_names_come_from_the_id_then_the_class_name() {
    assert_eq!(weapon_name_from_id_or_class(Some(0), "", PlayerClass::Scout), "Bat");
    assert_eq!(weapon_name_from_id_or_class(Some(190), "", PlayerClass::Spy), "Knife");
    assert_eq!(weapon_name_from_id_or_class(Some(221), "", PlayerClass::Other), "Melee");
    assert_eq!(weapon_name_from_id_or_class(Some(13), "", PlayerClass::Scout), "Scattergun");
    assert_eq!(weapon_name_from_id_or_class(Some(327), "", PlayerClass::Demoman), "Claidheamh Mòr");
    assert_eq!(weapon_name_from_id_or_class(Some(1182), "", PlayerClass::Other), "Prinny Machete");
    assert_eq!(
        weapon_name_from_id_or_class(Some(9999), "CTFWeaponSniperRifle", PlayerClass::Sniper),
        "Sniper Rifle"
    );
    assert_eq!(
        weapon_name_from_id_or_class(None, "CTFRocketLauncher_AirStrike", PlayerClass::Soldier),
        "Air Strike"
    );
    assert_eq!(weapon_name_from_id_or_class(None, "CWeaponFoo", PlayerClass::Other), "Foo");
    assert_eq!(weapon_name_from_id_or_class(None, "CTFBat_Fish", PlayerClass::Scout), "Bat");
    assert_eq!(weapon_name_from_id_or_class(None, "CTF", PlayerClass::Other), "unknown");
    assert_eq!(weapon_name_from_id_or_class(None, "", PlayerClass::Other), "unknown");
    assert_eq!(weapon_name_from_id_or_class(None, "Medigun", PlayerClass::Medic), "Medi Gun");
    assert_eq!(weapon_name_from_id_or_class(None, "Grappling", PlayerClass::Medic), "Grappling");
}

#[test]
fn spread_categories() {
    assert_eq!(spread_category(Some(18), "", ""), Some(SpreadCategory::Minigun));
    assert_eq!(spread_category(Some(12), "", ""), Some(SpreadCategory::Scattergun));
    assert_eq!(spread_category(Some(99), "The Tomislav", ""), Some(SpreadCategory::Minigun));
    assert_eq!(spread_category(None, "x", "sniper"), Some(SpreadCategory::Smg));
    assert_eq!(spread_category(None, "Lugermorph", ""), Some(SpreadCategory::Pistol));
    assert_eq!(spread_category(None, "", "spy"), Some(SpreadCategory::Revolver));
    assert_eq!(spread_category(None, "", "CTFShotgun_Soldier"), Some(SpreadCategory::Scattergun));
    assert_eq!(spread_category(None, "Rocket Launcher", "CTFRocketLauncher"), None);
    assert_eq!(SpreadCategory::Smg.category_id(), 16);
    assert_eq!(SpreadCategory::Scattergun.category_id(), 13);
    assert_eq!(SpreadCategory::Revolver.name(), "Revolver");
}

#[test]
fn projectile_and_launcher_checks() {
    assert!(is_spread_rocket_launcher("Beggar's Bazooka"));
    assert!(is_spread_rocket_launcher("The Airstrike"));
    assert!(!is_spread_rocket_launcher("Rocket Launcher"));
    assert!(supported_projectile("CTFGrenadePipebombProjectile"));
    assert!(supported_projectile("CTFProjectile_Rocket"));
    assert!(!supported_projectile("CTFProjectile_SentryRocket"));
    assert!(!supported_projectile("CTFPlayer"));
    assert!(arcing_projectile("CTFProjectile_Jar"));
    assert!(!arcing_projectile("CTFProjectile_Rocket"));
}

#[test]
fn backstab_and_cleaver_hits() {
    assert!(is_backstab(601, true, 7, 1000));
    assert!(!is_backstab(601, false, 7, 1000));
    assert!(!is_backstab(601, true, 4, 1000));
    // 550 is exactly 5.5 times 100: not more.
    assert!(!is_backstab(550, true, 7, 100));
    assert!(is_backstab(551, true, 7, 100));
    assert!(is_cleaver_or_wrap_assassin(16, 3));
    assert!(is_cleaver_or_wrap_assassin(16, 8));
    assert!(is_cleaver_or_wrap_assassin(16, 50));
    assert!(!is_cleaver_or_wrap_assassin(16, 9));
    assert!(!is_cleaver_or_wrap_assassin(15, 50));
}
