use galaxy_roamer::battle::{
    capture_exp, caught_message, cost, defeat_exp, enemy_line, enemy_move, enemy_move_index, lead_tag,
    menu_labels, open_battle, enemy_move_for_roll, level_up_message, menu_step,
    record_capture, record_defeat, select, spend, Act, Consumable, Menu, MenuInput, Page, Phase,
};
use galaxy_roamer::creatures::{CaughtCreature, Collection, CreatureKind, Element, Inventory, Progress};
use galaxy_roamer::help::{panel_action, HelpView, PanelAction};
use galaxy_roamer::hud::{crystals_text, distance_text, Objective, Wallet};
use galaxy_roamer::onfoot::{flight_frame_runs, mode_after_f, walking_enabled, Mode, SURFACE_LAYER};
use galaxy_roamer::party::{element_name, party_header, party_rows, PartyView};
use galaxy_roamer::pause::{frame_runs, quits, toggle_pause, AppState};
use galaxy_roamer::targeting::{position, Autopilot, AutopilotStep, Targets, TARGET_COUNT};
use galaxy_roamer::theme::{next_theme, ThemeKind};
use galaxy_roamer::toast::Toasts;
use galaxy_roamer::warp::warp_step;

fn press() -> MenuInput {
    MenuInput { up: false, down: false, left: false, right: false, confirm: false, back: false }
}

// ── Pause ────────────────────────────────────────────────────────────────────

#[test]
fn esc_toggles_running_to_paused_and_back() {
    let mut state = AppState::default();
    assert_eq!(state, AppState::Running, "starts running");
    state = toggle_pause(state, true).expect("esc switches");
    assert_eq!(state, AppState::Paused, "esc pauses");
    state = toggle_pause(state, true).expect("esc switches");
    assert_eq!(state, AppState::Running, "esc resumes");
    assert_eq!(toggle_pause(state, false), None, "no key, no change");
}

#[test]
fn q_quits_only_while_paused() {
    assert!(!quits(AppState::Running, true), "Q while running does not quit");
    assert!(quits(AppState::Paused, true), "Q while paused quits");
    assert!(!quits(AppState::Paused, false));
}

#[test]
fn paused_freezes_transform_sync() {
    assert!(frame_runs(AppState::Running), "sync runs while running");
    assert!(!frame_runs(AppState::Paused), "sync frozen while paused");
    assert!(flight_frame_runs(AppState::Running, Mode::Flight));
    assert!(!flight_frame_runs(AppState::Paused, Mode::Flight));
    assert!(!flight_frame_runs(AppState::Running, Mode::OnFoot));
}

// ── Themes ───────────────────────────────────────────────────────────────────

#[test]
fn theme_plugin_inserts_default_theme() {
    assert_eq!(ThemeKind::initial().name(), "dark_neon");
}

#[test]
fn t_cycles_through_the_three_themes() {
    assert_eq!(next_theme("dark_neon"), ThemeKind::CleanPastel);
    assert_eq!(next_theme("clean_pastel"), ThemeKind::Earthy);
    assert_eq!(next_theme("earthy"), ThemeKind::DarkNeon);
    assert_eq!(next_theme("unknown"), ThemeKind::DarkNeon);
    let mut k = ThemeKind::Earthy;
    for _ in 0..3 {
        k = next_theme(k.name());
    }
    assert_eq!(k, ThemeKind::Earthy);
}

// ── Landing ──────────────────────────────────────────────────────────────────

#[test]
fn f_lands_only_in_range_and_takes_off_outside_battle() {
    assert_eq!(Mode::default(), Mode::Flight);
    assert_eq!(mode_after_f(Mode::Flight, Phase::Roam, true, true), Some(Mode::OnFoot));
    assert_eq!(mode_after_f(Mode::Flight, Phase::Roam, true, false), None);
    assert_eq!(mode_after_f(Mode::Flight, Phase::Roam, false, true), None);
    assert_eq!(mode_after_f(Mode::OnFoot, Phase::Roam, true, false), Some(Mode::Flight));
    assert_eq!(mode_after_f(Mode::OnFoot, Phase::Battle, true, true), None);
    assert!(walking_enabled(Mode::OnFoot, Phase::Roam));
    assert!(!walking_enabled(Mode::OnFoot, Phase::Encounter));
    assert!(!walking_enabled(Mode::Flight, Phase::Roam));
    assert_eq!(SURFACE_LAYER, 1);
}

// ── Overlays ─────────────────────────────────────────────────────────────────

#[test]
fn help_overlay_toggles_and_syncs() {
    let mut v = HelpView::default();
    assert!(!v.open);
    v.toggle(true);
    assert!(v.open);
    assert_eq!(panel_action(v.open, false), PanelAction::Spawn);
    assert_eq!(panel_action(v.open, true), PanelAction::Keep);
    v.toggle(false);
    assert!(v.open, "no key, no change");
    v.toggle(true);
    assert_eq!(panel_action(v.open, true), PanelAction::Despawn);
    assert_eq!(panel_action(v.open, false), PanelAction::Keep);
}

#[test]
fn party_view_is_forced_shut_outside_roaming() {
    let mut v = PartyView::default();
    v.toggle(true);
    v.restrict(Mode::OnFoot, Phase::Roam);
    assert!(v.open);
    v.restrict(Mode::OnFoot, Phase::Battle);
    assert!(!v.open);
    v.toggle(true);
    v.restrict(Mode::Flight, Phase::Roam);
    assert!(!v.open);
}

#[test]
fn party_view_lists_the_lead_first() {
    let c = Collection {
        party: vec![
            CaughtCreature { kind: CreatureKind::Grasshog, level: 5 },
            CaughtCreature { kind: CreatureKind::Flarehog, level: 12 },
            CaughtCreature { kind: CreatureKind::Grasshog, level: 3 },
        ],
    };
    assert_eq!(party_header(&c), "PARTY  (3)        DEX  2/4");
    assert_eq!(
        party_rows(&c),
        vec![
            "> Grasshog   Lv5   Grass".to_string(),
            "Flarehog   Lv12   Fire".to_string(),
            "Grasshog   Lv3   Grass".to_string(),
        ]
    );
    assert_eq!(c.lead_kind(), CreatureKind::Grasshog);
    assert_eq!(element_name(Element::Water), "Water");
    assert_eq!(element_name(Element::Rock), "Rock");
    let empty = Collection { party: Vec::new() };
    assert_eq!(party_header(&empty), "PARTY  (0)        DEX  0/4");
    assert_eq!(party_rows(&empty), vec!["No creatures caught yet.".to_string()]);
}

// ── Targeting and warp ───────────────────────────────────────────────────────

#[test]
fn targets_keep_a_listed_selection_and_cycle() {
    assert_eq!(TARGET_COUNT, 10);
    let mut t = Targets::default();
    t.set_list(vec![30, 10, 20]);
    assert_eq!(t.selected, Some(30), "nearest selected by default");
    t.cycle(true);
    assert_eq!(t.selected, Some(10));
    t.cycle(false);
    assert_eq!(t.selected, Some(10), "no key, no change");
    t.set_list(vec![20, 10]);
    assert_eq!(t.selected, Some(10), "still listed, kept");
    t.cycle(true);
    assert_eq!(t.selected, Some(20), "wraps around");
    t.set_list(vec![40, 50]);
    assert_eq!(t.selected, Some(40), "gone, nearest taken");
    t.set_list(Vec::new());
    assert_eq!(t.selected, None);
    t.cycle(true);
    assert_eq!(t.selected, None, "nothing to cycle through");
}

#[test]
fn cycling_a_full_round_returns_to_the_start() {
    let mut t = Targets::default();
    t.set_list(vec![1, 2, 3, 4, 5]);
    t.cycle(true);
    let start = t.selected;
    for _ in 0..5 {
        t.cycle(true);
    }
    assert_eq!(t.selected, start);
    assert_eq!(position(&t.list, 4), Some(3));
    assert_eq!(position(&vec![7, 8, 7], 7), Some(0));
    assert_eq!(position(&t.list, 9), None);
}

#[test]
fn autopilot_engages_flies_and_stops() {
    let mut t = Targets::default();
    let mut ap = Autopilot::default();
    ap.engage(true, &t);
    assert!(!ap.on, "nothing selected");
    t.set_list(vec![3]);
    ap.engage(true, &t);
    assert!(ap.on);
    assert_eq!(ap.step(false, true, false), AutopilotStep::Fly);
    assert!(ap.on);
    assert_eq!(ap.step(false, true, true), AutopilotStep::Arrive);
    assert!(!ap.on);
    assert_eq!(ap.step(false, true, false), AutopilotStep::Idle);
    ap.engage(true, &t);
    assert_eq!(ap.step(true, true, false), AutopilotStep::Cancel, "manual thrust cancels");
    assert!(!ap.on);
    ap.engage(true, &t);
    assert_eq!(ap.step(false, false, false), AutopilotStep::Cancel, "target gone");
}

#[test]
fn warp_jumps_ship_to_next_target_and_stops_it() {
    assert_eq!(warp_step(true, 0, 2), Some((0, 1)), "warped to first target, advances");
    assert_eq!(warp_step(true, 1, 2), Some((1, 0)), "wraps around");
    assert_eq!(warp_step(true, 5, 2), Some((1, 0)), "cursor taken modulo the count");
    assert_eq!(warp_step(false, 0, 2), None);
    assert_eq!(warp_step(true, 0, 0), None, "nowhere to go");
}

// ── Toasts and HUD ───────────────────────────────────────────────────────────

#[test]
fn toasts_drain_in_order() {
    let mut t = Toasts::default();
    assert!(t.is_empty());
    t.push("one".to_string());
    t.push("two".to_string());
    assert!(!t.is_empty());
    assert_eq!(t.drain(), vec!["one".to_string(), "two".to_string()]);
    assert!(t.is_empty());
    assert!(t.drain().is_empty());
}

#[test]
fn hud_defaults() {
    assert_eq!(Wallet::default().crystals, 0);
    assert_eq!(Objective::default().0, "Find a new planet");
}

// ── Battle ───────────────────────────────────────────────────────────────────

#[test]
fn menu_navigates_pages_and_returns_actions() {
    let mut m = Menu::default();
    let right = MenuInput { right: true, ..press() };
    assert_eq!(menu_step(&mut m, right), None);
    assert_eq!(m.cursor(), 1);
    let confirm = MenuInput { confirm: true, ..press() };
    assert_eq!(menu_step(&mut m, confirm), Some(Act::Capture));
    let open_items = MenuInput { down: true, left: true, confirm: true, ..press() };
    assert_eq!(menu_step(&mut m, open_items), None);
    assert_eq!((m.page(), m.cursor()), (Page::Item, 0));
    let bait = MenuInput { right: true, confirm: true, ..press() };
    assert_eq!(menu_step(&mut m, bait), Some(Act::Bait));
    let back = MenuInput { back: true, ..press() };
    assert_eq!(menu_step(&mut m, back), None);
    assert_eq!((m.page(), m.cursor()), (Page::Main, 0));
    assert_eq!(menu_step(&mut m, confirm), None);
    assert_eq!(m.page(), Page::Move);
    let third = MenuInput { down: true, confirm: true, ..press() };
    assert_eq!(menu_step(&mut m, third), Some(Act::Move(2)));
    let back_cell = MenuInput { right: true, confirm: true, ..press() };
    assert_eq!(menu_step(&mut m, back_cell), None);
    assert_eq!((m.page(), m.cursor()), (Page::Main, 0));
    let bottom_right = MenuInput { down: true, right: true, ..press() };
    assert_eq!(menu_step(&mut m, bottom_right), None);
    assert_eq!(m.cursor(), 3);
    m.reset();
    assert_eq!((m.page(), m.cursor()), (Page::Main, 0));
}

#[test]
fn back_leaves_the_move_page() {
    let mut m = Menu::default();
    let confirm = MenuInput { confirm: true, ..press() };
    assert_eq!(menu_step(&mut m, confirm), None);
    assert_eq!(m.page(), Page::Move);
    let right = MenuInput { right: true, ..press() };
    assert_eq!(menu_step(&mut m, right), None);
    let back = MenuInput { back: true, ..press() };
    assert_eq!(menu_step(&mut m, back), None);
    assert_eq!((m.page(), m.cursor()), (Page::Main, 0));
    // On the main page Back changes nothing but what the arrows do.
    assert_eq!(menu_step(&mut m, MenuInput { back: true, right: true, ..press() }), None);
    assert_eq!((m.page(), m.cursor()), (Page::Main, 1));
}

#[test]
fn menu_cells_select_their_actions() {
    assert_eq!(select(Page::Main, 0), Act::OpenMove);
    assert_eq!(select(Page::Main, 3), Act::Flee);
    assert_eq!(select(Page::Move, 1), Act::Move(1));
    assert_eq!(select(Page::Item, 0), Act::Heal);
    assert_eq!(select(Page::Item, 2), Act::Flash);
    assert_eq!(select(Page::Item, 3), Act::Back);
    assert_eq!(cost(Act::Capture), Some(Consumable::CaptureDisc));
    assert_eq!(cost(Act::Flee), None);
}

#[test]
fn spending_stops_at_zero() {
    let mut inv = Inventory::starting();
    inv.flash_bomb = 1;
    assert!(spend(&mut inv, Consumable::FlashBomb));
    assert_eq!(inv.flash_bomb, 0);
    assert!(!spend(&mut inv, Consumable::FlashBomb));
    assert_eq!(inv.flash_bomb, 0);
    assert!(spend(&mut inv, Consumable::CaptureDisc));
    assert_eq!(inv.capture_disc, 22);
    assert_eq!(inv.bait, 12, "other items untouched");
}

#[test]
fn capture_books_party_exp_and_crystals() {
    let mut c = Collection::starting();
    let mut p = Progress::new();
    let mut w = Wallet::default();
    let levels = record_capture(&mut c, &mut p, &mut w, CreatureKind::Rockfang, 6);
    assert_eq!(c.party.last(), Some(&CaughtCreature { kind: CreatureKind::Rockfang, level: 6 }));
    assert_eq!(levels, 1, "120 EXP crosses the first level");
    assert_eq!((p.level, p.exp), (2, 20));
    assert_eq!(w.crystals, 40);
    assert_eq!(record_defeat(&mut p, 5), 0);
    assert_eq!(p.exp, 60);
    assert_eq!(capture_exp(3), 60);
    assert_eq!(defeat_exp(3), 24);
    assert_eq!(enemy_move_index(7, 3), 1);
}

#[test]
fn battle_notices() {
    assert_eq!(caught_message(CreatureKind::Aquabud), "Caught Aquabud!");
    assert_eq!(level_up_message(12), "Level up!  Lv.12");
}

#[test]
fn enemies_answer_with_their_own_moves() {
    for k in CreatureKind::all() {
        let own = k.moves();
        for _ in 0..30 {
            let m = enemy_move(k);
            assert!(own.iter().any(|o| o.name == m.name && o.sp_cost == m.sp_cost), "{k:?}");
        }
    }
}

#[test]
fn menu_labels_follow_the_page() {
    let inv = Inventory::starting();
    assert_eq!(menu_labels(Page::Main, CreatureKind::Grasshog, &inv), vec!["Attack", "Capture", "Item", "Flee"]);
    assert_eq!(
        menu_labels(Page::Move, CreatureKind::Rockfang, &inv),
        vec!["Tackle", "Rock Throw 6sp", "Boulder 13sp", "Back"]
    );
    assert_eq!(
        menu_labels(Page::Item, CreatureKind::Grasshog, &inv),
        vec!["Heal (8)", "Bait (12)", "Flash (6)", "Back"]
    );
}

#[test]
fn battle_status_lines() {
    assert_eq!(enemy_line(CreatureKind::Rockfang, 9), "Wild Rockfang   Lv9");
    assert_eq!(lead_tag(&Collection::starting()), "Grasshog Lv5   ");
    assert_eq!(lead_tag(&Collection { party: Vec::new() }), "");
}

#[test]
fn hud_read_outs() {
    assert_eq!(crystals_text(&Wallet { crystals: 240 }), "\u{25C6} 240");
    assert_eq!(distance_text(true, "1200 km", false), "TARGET  1200 km\n[T] target   [G] warp");
    assert_eq!(
        distance_text(false, "3.10 LY", true),
        "NEAREST  3.10 LY  \u{25B6} WARP\n[T] target   [G] warp"
    );
}

#[test]
fn opening_a_battle_resets_the_menu_and_greets() {
    let mut m = Menu::default();
    menu_step(&mut m, MenuInput { confirm: true, down: true, ..press() });
    let mut log = String::new();
    open_battle(&mut m, &mut log);
    assert_eq!((m.page(), m.cursor()), (Page::Main, 0));
    assert_eq!(log, "A wild creature blocks your path!");
    let mut kept = "Got away safely.".to_string();
    open_battle(&mut m, &mut kept);
    assert_eq!(kept, "Got away safely.");
}

#[test]
fn rolls_pick_enemy_moves_modulo_three() {
    assert_eq!(enemy_move_for_roll(CreatureKind::Aquabud, 0).name, "Tackle");
    assert_eq!(enemy_move_for_roll(CreatureKind::Aquabud, 4).name, "Bubble");
    assert_eq!(enemy_move_for_roll(CreatureKind::Aquabud, 8).name, "Torrent");
    assert_eq!(enemy_move_for_roll(CreatureKind::Rockfang, u32::MAX).name, "Tackle");
}
