use galaxy_roamer::rng::thread_rng;
use galaxy_roamer::creatures::{
    Biome, biome_named, roll_wild_creature, wild_creature_from_draws, WILD_LEVELS_FROM, WILD_LEVELS_TO,
    effectiveness, exp_to_next, gain_exp, Collection, CreatureKind, Element, Inventory, Matchup,
    Progress, CAPTURE_REWARD,
};

fn multiplier(m: Matchup) -> f32 {
    m.halves() as f32 / 2.0
}

#[test]
fn type_effectiveness_triangle() {
    assert_eq!(multiplier(effectiveness(Element::Fire, Element::Grass)), 2.0);
    assert_eq!(multiplier(effectiveness(Element::Grass, Element::Fire)), 0.5);
    assert_eq!(multiplier(effectiveness(Element::Fire, Element::Fire)), 1.0);
    assert_eq!(multiplier(effectiveness(Element::Water, Element::Fire)), 2.0);
}

#[test]
fn every_creature_has_a_free_basic_move() {
    for k in [
        CreatureKind::Grasshog,
        CreatureKind::Aquabud,
        CreatureKind::Rockfang,
        CreatureKind::Flarehog,
    ] {
        let mvs = k.moves();
        assert!(!mvs.is_empty(), "{k:?} has moves");
        assert_eq!(mvs[0].sp_cost, 0, "{k:?}'s first move is free");
        assert!(mvs.iter().any(|m| m.sp_cost > 0), "{k:?} has an SP special");
    }
}

#[test]
fn gain_exp_levels_up_and_carries_overflow() {
    let mut s = Progress::new();
    let levels = gain_exp(&mut s, exp_to_next(1) + 10);
    assert_eq!(s.level, 2, "leveled up");
    assert_eq!(s.exp, 10, "overflow carried");
    assert_eq!(levels, 1, "one level gained, so the vital stats grow once");
}

#[test]
fn matchups_mirror_each_other() {
    let all = [Element::Grass, Element::Water, Element::Rock, Element::Fire];
    for a in all {
        for b in all {
            let ab = effectiveness(a, b);
            let ba = effectiveness(b, a);
            match ab {
                Matchup::Super => assert_eq!(ba, Matchup::Weak, "{a:?} vs {b:?}"),
                Matchup::Weak => assert_eq!(ba, Matchup::Super, "{a:?} vs {b:?}"),
                Matchup::Neutral => assert_eq!(ba, Matchup::Neutral, "{a:?} vs {b:?}"),
            }
        }
    }
}

#[test]
fn rock_and_water_matchups() {
    assert_eq!(effectiveness(Element::Water, Element::Rock), Matchup::Super);
    assert_eq!(effectiveness(Element::Grass, Element::Rock), Matchup::Super);
    assert_eq!(effectiveness(Element::Rock, Element::Fire), Matchup::Super);
    assert_eq!(effectiveness(Element::Grass, Element::Water), Matchup::Super);
    assert_eq!(effectiveness(Element::Rock, Element::Water), Matchup::Weak);
    assert_eq!(effectiveness(Element::Rock, Element::Rock), Matchup::Neutral);
    assert_eq!(Matchup::Super.halves(), 4);
    assert_eq!(Matchup::Neutral.halves(), 2);
    assert_eq!(Matchup::Weak.halves(), 1);
}

#[test]
fn names_round_trip() {
    for k in CreatureKind::all() {
        assert_eq!(CreatureKind::from_name(k.name()), Some(k));
    }
    assert_eq!(CreatureKind::from_name("Flarehog"), Some(CreatureKind::Flarehog));
    assert_eq!(CreatureKind::from_name("flarehog"), None);
    assert_eq!(CreatureKind::from_name(""), None);
}

#[test]
fn elements_and_ailments() {
    assert_eq!(CreatureKind::Grasshog.element(), Element::Grass);
    assert_eq!(CreatureKind::Aquabud.element(), Element::Water);
    assert_eq!(CreatureKind::Rockfang.element(), Element::Rock);
    assert_eq!(CreatureKind::Flarehog.element(), Element::Fire);
    assert_eq!(Element::Grass.ailment_label(), "Poisoned");
    assert_eq!(Element::Water.ailment_label(), "Drenched");
    assert_eq!(Element::Rock.ailment_label(), "Cracked");
    assert_eq!(Element::Fire.ailment_label(), "Burned");
}

#[test]
fn flarehog_moves_exactly() {
    let mvs = CreatureKind::Flarehog.moves();
    assert_eq!(mvs[1].name, "Ember");
    assert_eq!(mvs[1].power, 18);
    assert_eq!(mvs[1].sp_cost, 6);
    assert_eq!(mvs[2].name, "Flamethrow");
    assert_eq!(mvs[2].power, 26);
    assert_eq!(mvs[2].sp_cost, 12);
    assert!(mvs[2].ailment);
    assert!(mvs.iter().all(|m| m.element == Element::Fire));
}

#[test]
fn exp_requirement_grows_by_fifty() {
    assert_eq!(exp_to_next(1), 100);
    assert_eq!(exp_to_next(2), 150);
    assert_eq!(exp_to_next(0), 50);
}

#[test]
fn gain_exp_can_cross_several_levels() {
    let mut s = Progress::new();
    // 100 (1 -> 2) + 150 (2 -> 3) + 200 (3 -> 4) = 450, plus 7 left over.
    let levels = gain_exp(&mut s, 457);
    assert_eq!(levels, 3);
    assert_eq!(s.level, 4);
    assert_eq!(s.exp, 7);
}

#[test]
fn gain_exp_in_two_steps_matches_one_step() {
    let mut once = Progress::new();
    gain_exp(&mut once, 300);
    let mut twice = Progress::new();
    gain_exp(&mut twice, 120);
    gain_exp(&mut twice, 180);
    assert_eq!((once.level, once.exp), (twice.level, twice.exp));
}

#[test]
fn gain_exp_below_the_next_level_only_adds() {
    let mut s = Progress::new();
    assert_eq!(gain_exp(&mut s, 99), 0);
    assert_eq!((s.level, s.exp), (1, 99));
}

#[test]
fn starting_inventory_and_collection() {
    let inv = Inventory::starting();
    assert_eq!(
        (inv.capture_disc, inv.bait, inv.heal_spray, inv.revive, inv.flash_bomb, inv.antidote),
        (23, 12, 8, 3, 6, 0)
    );
    let c = Collection::starting();
    assert_eq!(c.party.len(), 1);
    assert_eq!(c.party[0].kind, CreatureKind::Grasshog);
    assert_eq!(c.party[0].level, 5);
    assert_eq!(c.lead_kind(), CreatureKind::Grasshog);
    assert_eq!(c.species_count(), 1);
    assert!(c.has_species(CreatureKind::Grasshog));
    assert!(!c.has_species(CreatureKind::Rockfang));
    assert_eq!(CAPTURE_REWARD, 40);
}

#[test]
fn empty_party_falls_back_to_grasshog_lead() {
    let c = Collection { party: Vec::new() };
    assert_eq!(c.lead_kind(), CreatureKind::Grasshog);
    assert_eq!(c.species_count(), 0);
}

#[test]
fn biome_pools_weight_native_species() {
    assert_eq!(
        CreatureKind::biome_pool(Biome::Volcanic),
        vec![
            CreatureKind::Flarehog,
            CreatureKind::Flarehog,
            CreatureKind::Flarehog,
            CreatureKind::Rockfang,
            CreatureKind::Aquabud,
        ]
    );
    assert_eq!(
        CreatureKind::biome_pool(Biome::Alien),
        vec![
            CreatureKind::Grasshog,
            CreatureKind::Aquabud,
            CreatureKind::Rockfang,
            CreatureKind::Flarehog,
        ]
    );
    for b in [Biome::Grass, Biome::Desert, Biome::Tundra] {
        assert_eq!(CreatureKind::biome_pool(b).len(), 5, "{b:?}");
    }
}

#[test]
fn wild_creatures_come_from_the_biome_pool() {
    let mut rng = thread_rng();
    for b in [Biome::Grass, Biome::Desert, Biome::Tundra, Biome::Volcanic, Biome::Alien] {
        let pool = CreatureKind::biome_pool(b);
        for _ in 0..50 {
            let (kind, level) = roll_wild_creature(b, &mut rng);
            assert!(pool.contains(&kind), "{kind:?} roams {b:?}");
            assert!((WILD_LEVELS_FROM..WILD_LEVELS_TO).contains(&level));
        }
    }
}

#[test]
fn biome_names_select_biomes() {
    assert_eq!(biome_named("desert"), Biome::Desert);
    assert_eq!(biome_named("tundra"), Biome::Tundra);
    assert_eq!(biome_named("volcanic"), Biome::Volcanic);
    assert_eq!(biome_named("alien"), Biome::Alien);
    assert_eq!(biome_named("grass"), Biome::Grass);
    assert_eq!(biome_named("Desert"), Biome::Grass);
}

#[test]
fn draws_pick_wild_creatures() {
    assert_eq!(wild_creature_from_draws(Biome::Desert, 0, 7), (CreatureKind::Rockfang, 7));
    assert_eq!(wild_creature_from_draws(Biome::Desert, 3, 2), (CreatureKind::Flarehog, 2));
    assert_eq!(wild_creature_from_draws(Biome::Tundra, 4, 17), (CreatureKind::Grasshog, 17));
}
