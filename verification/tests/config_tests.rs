use tf_rs::config::{
    config_file_name, AimbotConfig, ColorF, CondsDisplayConfig, Config, EntityESPConfig, EspColorConfig, KeyConfig,
};
use tf_rs::config_text::{
    bool_from_text, bool_to_text, i32_from_text, i32_to_text, u32_from_text, u32_to_text,
};
use tf_rs::globals::Globals;
use tf_rs::record::{format_record, parse_record};
use tf_rs::state::AppState;

fn names(v: &[&str]) -> Vec<String> {
    v.iter().map(|s| s.to_string()).collect()
}

#[test]
fn entity_esp_bool() {
    let mut e = EntityESPConfig::default();
    assert!(!e.bool());
    e.health = true;
    assert!(e.bool());
}

#[test]
fn default_colors_are_red_and_blue() {
    let d = EspColorConfig::default();
    assert!(d.use_team_colors);
    assert_eq!(d.enemy, ColorF { r: 0.863f32.to_bits(), g: 0.176f32.to_bits(), b: 0.137f32.to_bits(), a: 1.0f32.to_bits() });
    assert_eq!(d.friendly, ColorF { r: 0.157f32.to_bits(), g: 0.431f32.to_bits(), b: 0.941f32.to_bits(), a: 1.0f32.to_bits() });
    let c = Config::default();
    assert!(!c.bunnyhop && !c.esp.master && !c.aimbot.master);
    assert!(c.esp.conds.butter.enabled);
    assert_eq!(c.esp.conds.zoomed.color, ColorF { r: 1.0f32.to_bits(), g: 1.0f32.to_bits(), b: 1.0f32.to_bits(), a: 1.0f32.to_bits() });
}

#[test]
fn enabled_condition_indices() {
    let mut c = CondsDisplayConfig::default();
    assert_eq!(c.enabled_indices(), vec![0, 1, 2, 3, 4, 5, 6]);
    c.taunting.enabled = false;
    c.mg.enabled = false;
    assert_eq!(c.enabled_indices(), vec![0, 2, 3, 4, 6]);
    assert!(c.any_enabled());
}

#[test]
fn leaf_texts() {
    assert_eq!(bool_to_text(true), "true");
    assert_eq!(bool_from_text("false"), Some(false));
    assert_eq!(bool_from_text("False"), None);
    assert_eq!(u32_to_text(4294967295), "4294967295");
    assert_eq!(u32_from_text("+17"), Some(17));
    assert_eq!(u32_from_text("4294967296"), None);
    assert_eq!(u32_from_text("-1"), None);
    assert_eq!(u32_from_text(""), None);
    assert_eq!(u32_from_text(" 1"), None);
    assert_eq!(i32_to_text(-2147483648), "-2147483648");
    assert_eq!(i32_to_text(0), "0");
    assert_eq!(i32_from_text("-2147483648"), Some(i32::MIN));
    assert_eq!(i32_from_text("2147483648"), None);
    assert_eq!(i32_from_text("-"), None);
    assert_eq!(i32_from_text("+42"), Some(42));
}

#[test]
fn key_config_text() {
    let k = KeyConfig { use_key: true, is_mouse_button: false, code: 42 };
    assert_eq!(k.to_string(), "use_key: true\nis_mouse_button: false\ncode: 42\n");
    assert_eq!(KeyConfig::from_str(&k.to_string()), Ok(k));
}

#[test]
fn key_config_missing_and_unknown_fields() {
    let k = KeyConfig::from_str("bogus: 1\n\ncode: 7\nno colon here\n").unwrap();
    assert_eq!(k, KeyConfig { use_key: false, is_mouse_button: false, code: 7 });
}

#[test]
fn key_config_bad_field() {
    let e = KeyConfig::from_str("use_key: yes\ncode: x\n").unwrap_err();
    assert_eq!(e.field, "use_key");
    assert_eq!(e.text, "yes");
}

#[test]
fn entity_esp_text_round_trip() {
    let e = EntityESPConfig { boxes: true, names: false, health: true, conds: false };
    assert_eq!(e.to_string(), "boxes: true\nnames: false\nhealth: true\nconds: false\n");
    assert_eq!(EntityESPConfig::from_str(&e.to_string()), Ok(e));
}

#[test]
fn aimbot_text_nests_key() {
    let a = AimbotConfig {
        master: true,
        silent_aim: false,
        building_aim: true,
        key: KeyConfig { use_key: true, is_mouse_button: true, code: 4 },
        fov: -30,
        draw_fov: true,
    };
    let text = a.to_string();
    assert_eq!(
        text,
        "master: true\nsilent_aim: false\nbuilding_aim: true\nkey:\n    use_key: true\n    is_mouse_button: true\n    code: 4\nfov: -30\ndraw_fov: true\n"
    );
    assert_eq!(AimbotConfig::from_str(&text), Ok(a));
}

#[test]
fn aimbot_bad_nested_key() {
    let e = AimbotConfig::from_str("key:\n    code: nope\nfov: 3\n").unwrap_err();
    assert_eq!(e.field, "key");
    assert_eq!(e.text, "    code: nope");
}

#[test]
fn record_parse_gathers_block() {
    let fields = names(&["a", "b"]);
    let asg = parse_record("a:\n  x: 1\n\n  y: 2\nb: 3\nc: 4\n", &fields);
    assert_eq!(asg, vec![(0, "  x: 1\n\n  y: 2".to_string()), (1, "3".to_string())]);
}

#[test]
fn record_format_one_and_many_lines() {
    let fields = vec![
        ("a".to_string(), "1".to_string()),
        ("b".to_string(), "x: 1\ny: 2\n".to_string()),
        ("c".to_string(), "".to_string()),
    ];
    assert_eq!(format_record(&fields), "a: 1\nb:\n    x: 1\n    y: 2\n");
}

#[test]
fn config_list_puts_default_first() {
    let files = names(&[".zeta.tf_rs.cfg", "notes.txt", ".default.tf_rs.cfg", ".tf_rs_players.cfg", "..two.tf_rs.cfg.tf_rs.cfg"]);
    assert_eq!(Config::get_config_names(&files), names(&["zeta", "default", "two"]));
    let mut state = AppState::new(Config::default(), &files);
    assert_eq!(Config::list_configs(&state), &names(&["default", "zeta", "two"]));
    Config::refresh_configs(&mut state, &names(&[".a.tf_rs.cfg", ".b.tf_rs.cfg"]));
    assert_eq!(Config::list_configs(&state), &names(&["a", "b"]));
}

#[test]
fn state_write_changes_config_only() {
    let mut state = AppState::new(Config::default(), &Vec::new());
    Config::write(&mut state).bunnyhop = true;
    Globals::write(&mut state).aimbot_key_down = true;
    assert!(Config::read(&state).bunnyhop);
    assert!(Globals::read(&state).aimbot_key_down);
    assert!(Globals::read(&state).target.is_none());
}

#[test]
fn saved_name_is_listed_again() {
    let file = config_file_name("legit");
    assert_eq!(file, ".legit.tf_rs.cfg");
    assert_eq!(Config::get_config_names(&names(&[&file])), names(&["legit"]));
    assert_eq!(config_file_name(""), "..tf_rs.cfg");
    assert_eq!(Config::get_config_names(&names(&["..tf_rs.cfg"])), names(&["tf_rs.cfg"]));
}

#[test]
fn condition_color_for_picker() {
    let mut conds = CondsDisplayConfig::default();
    *conds.color_mut(3) = ColorF { r: 1, g: 2, b: 3, a: 4 };
    assert_eq!(conds.invisible.color, ColorF { r: 1, g: 2, b: 3, a: 4 });
    assert_eq!(conds.zoomed.color, CondsDisplayConfig::default().zoomed.color);
    *conds.color_mut(9) = ColorF { r: 5, g: 6, b: 7, a: 8 };
    assert_eq!(conds.butter.color, ColorF { r: 5, g: 6, b: 7, a: 8 });
    assert!(conds.butter.enabled);
}

fn color_texts() -> Vec<String> {
    (0..17).map(|i| format!("r: {}", i)).collect()
}

#[test]
fn whole_config_text_reads_back() {
    let mut c = Config::default();
    c.bunnyhop = true;
    c.aimbot.fov = 42;
    c.esp.conds.zoomed.enabled = false;
    let text = c.to_text(&color_texts());
    assert!(text.starts_with("bunnyhop: true\nesp:\n    master: false\n"));
    assert!(text.contains("\n        zoomed:\n            enabled: false\n            color: r: 2\n"));
    let (back, colors) = Config::from_text(&text).unwrap();
    assert_eq!(back, c);
    let expected: Vec<(usize, String)> = (0..17).map(|i| (i, format!("r: {}", i))).collect();
    assert_eq!(colors, expected);
}

#[test]
fn nested_conds_field_is_read_as_the_outer_one() {
    let mut c = Config::default();
    c.esp.player_enemy.conds = true;
    let text = c.to_text(&color_texts());
    let (back, _) = Config::from_text(&text).unwrap();
    assert!(!back.esp.player_enemy.conds);
}

#[test]
fn whole_config_bad_field() {
    let err = Config::from_text("bunnyhop: yes\nspectator_list: true").unwrap_err();
    assert_eq!(err.field, "bunnyhop");
    assert_eq!(err.text, "yes");
    let err = Config::from_text("esp:\n    master: 1\n").unwrap_err();
    assert_eq!(err.field, "esp");
}

#[test]
fn colors_listed_and_set_by_position() {
    let mut c = Config::default();
    let red = ColorF { r: 9, g: 8, b: 7, a: 6 };
    c.set_color(8, red);
    assert_eq!(c.colors.boxes.friendly, red);
    c.set_color(3, red);
    assert_eq!(c.esp.conds.invisible.color, red);
    let list = tf_rs::config_file::config_colors(&c);
    assert_eq!(list.len(), 17);
    assert_eq!(list[3], red);
    assert_eq!(list[8], red);
    assert_eq!(list[16], Config::default().colors.buildings.teleporter.friendly);
}
