use tf_rs::config::{AimbotConfig, Config};
use tf_rs::globals::Globals;
use tf_rs::menu_state::{
    fov_label, handle_event, player_rows, tabs, MenuAction, MenuEvent, MenuState, MenuTab,
    PlayerInfo,
};
use tf_rs::player_db::{self, get, PlayerCategory, PlayerDb};
use tf_rs::spectators::{observer_mode_label, spectator_lines, Spectator, SpectatorLine};

fn padded(s: &str, len: usize) -> Vec<u8> {
    let mut v = s.as_bytes().to_vec();
    v.resize(len, 0);
    v
}

#[test]
fn tab_titles_in_order() {
    let titles: Vec<&str> = tabs().into_iter().map(|t| t.title()).collect();
    assert_eq!(titles, vec!["Aimbot", "ESP", "Colors", "Misc", "Config", "Players"]);
}

#[test]
fn menu_starts_on_aimbot_tab() {
    let s = MenuState::new();
    assert_eq!(s.tab, MenuTab::Aimbot);
    assert_eq!(s.selected_config, 0);
    assert!(s.is_current(MenuTab::Aimbot));
    assert!(!s.is_current(MenuTab::Players));
    assert!(s.shows_save(0));
    assert!(!s.shows_save(1));
}

#[test]
fn tab_click_opens_tab() {
    let mut s = MenuState::new();
    let mut db = PlayerDb::new();
    let mut g = Globals::default();
    let names: Vec<String> = Vec::new();
    let a = handle_event(&mut s, &mut g, &names, &mut db, MenuEvent::TabClicked(MenuTab::Config));
    assert_eq!(a, MenuAction::Nothing);
    assert_eq!(s.tab, MenuTab::Config);
    assert!(s.is_current(MenuTab::Config));
}

#[test]
fn key_buttons_toggle_editing() {
    let mut s = MenuState::new();
    let mut db = PlayerDb::new();
    let mut g = Globals::default();
    let names: Vec<String> = Vec::new();
    handle_event(&mut s, &mut g, &names, &mut db, MenuEvent::AimbotKeyClicked);
    assert!(g.aimbot_key_editing);
    assert!(!g.thirdperson_key_editing);
    handle_event(&mut s, &mut g, &names, &mut db, MenuEvent::AimbotKeyClicked);
    assert!(!g.aimbot_key_editing);
    handle_event(&mut s, &mut g, &names, &mut db, MenuEvent::ThirdpersonKeyClicked);
    assert!(g.thirdperson_key_editing);
    assert_eq!(s, MenuState::new());
}

#[test]
fn config_list_clicks() {
    let mut s = MenuState::new();
    let mut db = PlayerDb::new();
    let mut g = Globals::default();
    let names = vec!["default".to_string(), "legit".to_string()];
    assert_eq!(
        handle_event(&mut s, &mut g, &names, &mut db, MenuEvent::SaveClicked(1)),
        MenuAction::Nothing
    );
    assert_eq!(
        handle_event(&mut s, &mut g, &names, &mut db, MenuEvent::ConfigClicked(1)),
        MenuAction::LoadConfig("legit".to_string())
    );
    assert_eq!(s.selected_config, 1);
    assert_eq!(
        handle_event(&mut s, &mut g, &names, &mut db, MenuEvent::SaveClicked(1)),
        MenuAction::SaveConfig("legit".to_string())
    );
    assert_eq!(
        handle_event(&mut s, &mut g, &names, &mut db, MenuEvent::ConfigClicked(5)),
        MenuAction::Nothing
    );
    assert_eq!(s.selected_config, 1);
    assert_eq!(
        handle_event(&mut s, &mut g, &names, &mut db, MenuEvent::RefreshClicked),
        MenuAction::RefreshConfigs
    );
    assert_eq!(
        handle_event(&mut s, &mut g, &names, &mut db, MenuEvent::CreateClicked("new".to_string())),
        MenuAction::CreateConfig("new".to_string())
    );
}

#[test]
fn category_button_cycles() {
    let mut s = MenuState::new();
    let mut db = PlayerDb::new();
    let mut g = Globals::default();
    let names: Vec<String> = Vec::new();
    let click = MenuEvent::CategoryClicked("[U:1:5]".to_string());
    assert_eq!(handle_event(&mut s, &mut g, &names, &mut db, click), MenuAction::SavePlayers);
    assert_eq!(get(&db, "[U:1:5]"), PlayerCategory::Category1);
    for _ in 0..3 {
        handle_event(&mut s, &mut g, &names, &mut db, MenuEvent::CategoryClicked("[U:1:5]".to_string()));
    }
    assert_eq!(get(&db, "[U:1:5]"), PlayerCategory::Category4);
    handle_event(&mut s, &mut g, &names, &mut db, MenuEvent::CategoryClicked("[U:1:5]".to_string()));
    assert_eq!(get(&db, "[U:1:5]"), PlayerCategory::NoCategory);
    assert_eq!(player_db::save(&db), player_db::save(&PlayerDb::new()));
}

#[test]
fn fov_label_text() {
    let mut a = AimbotConfig::default();
    a.fov = 30;
    assert_eq!(fov_label(&a), "Aimbot FOV: 30");
    a.fov = -2;
    assert_eq!(fov_label(&a), "Aimbot FOV: -2");
}

#[test]
fn player_rows_skip_empty_slots() {
    let mut db = PlayerDb::new();
    player_db::set(&mut db, "[U:1:2]", PlayerCategory::Category3);
    let infos = vec![
        PlayerInfo { name: padded("alice", 32), guid: padded("[U:1:1]", 33) },
        PlayerInfo { name: padded("", 32), guid: padded("[U:1:9]", 33) },
        PlayerInfo { name: padded("bob", 32), guid: padded("[U:1:2]", 33) },
        PlayerInfo { name: vec![0xff, 0xfe], guid: padded("[U:1:3]", 33) },
    ];
    let rows = player_rows(&db, &infos);
    assert_eq!(rows.len(), 2);
    assert_eq!(rows[0].name, "alice");
    assert_eq!(rows[0].guid, "[U:1:1]");
    assert_eq!(rows[0].category, PlayerCategory::NoCategory);
    assert_eq!(rows[1].name, "bob");
    assert_eq!(rows[1].category, PlayerCategory::Category3);
    assert_eq!(rows[1].category.name(), "Cat 3");
}

#[test]
fn observer_mode_names() {
    assert_eq!(observer_mode_label(1), "Deathcam");
    assert_eq!(observer_mode_label(4), "Firstperson");
    assert_eq!(observer_mode_label(6), "Point of Interest");
    assert_eq!(observer_mode_label(0), "Unknown");
    assert_eq!(observer_mode_label(9), "Unknown");
}

fn spectator(index: i32, dead: bool, mode: i32, target: Option<i32>, name: &str) -> Spectator {
    Spectator {
        index,
        dormant: false,
        dead,
        observer_mode: mode,
        observer_target: target,
        name: padded(name, 32),
    }
}

#[test]
fn spectators_of_the_watched_player() {
    let mut config = Config::default();
    config.spectator_list = true;
    let slots = vec![
        spectator(1, false, 0, None, "me"),
        spectator(2, true, 4, Some(1), "eyes"),
        spectator(3, true, 5, Some(7), "elsewhere"),
        spectator(4, false, 5, Some(1), "alive"),
        spectator(5, true, 2, Some(1), "free"),
        Spectator { dormant: true, ..spectator(6, true, 4, Some(1), "asleep") },
    ];
    let lines = spectator_lines(&config, Some(1), &slots);
    assert_eq!(
        lines,
        vec![
            SpectatorLine { text: "[Firstperson] eyes".to_string(), first_person: true },
            SpectatorLine { text: "[Freecam] free".to_string(), first_person: false },
        ]
    );
    assert!(spectator_lines(&config, None, &slots).is_empty());
    config.spectator_list = false;
    assert!(spectator_lines(&config, Some(1), &slots).is_empty());
}
