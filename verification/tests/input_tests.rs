use tf_rs::camera::CameraToggle;
use tf_rs::config::KeyConfig;
use tf_rs::flags::{LayoutFormat, NkKey, TextAlignment};
use tf_rs::config::Config;
use tf_rs::globals::Globals;
use tf_rs::input::{
    get_input_pressed, handle_key_edit, is_draw_key_released, is_input_pressed, on_input_event, Input,
};
use tf_rs::menu::{buffer_text, c_string_field, combo_header, condition_name, key_label, picker_rows};

#[test]
fn gui_constants() {
    assert_eq!(TextAlignment::LEFT.value(), 17);
    assert_eq!(TextAlignment::CENTER.value(), 18);
    assert_eq!(LayoutFormat::DYNAMIC.value(), 0);
    assert_eq!(LayoutFormat::STATIC.value(), 1);
    assert_eq!(NkKey::Delete.value(), 3);
}

#[test]
fn first_pressed_input() {
    let mut keys = vec![0u8; 512];
    assert_eq!(get_input_pressed(&keys, 0), Input::NoInput);
    assert_eq!(get_input_pressed(&keys, 0b100), Input::MouseButton(3));
    assert_eq!(get_input_pressed(&keys, 0b100000), Input::NoInput);
    keys[44] = 1;
    keys[100] = 1;
    assert_eq!(get_input_pressed(&keys, 0b1), Input::Key(44));
}

#[test]
fn input_pressed() {
    let mut keys = vec![0u8; 512];
    keys[7] = 1;
    assert!(is_input_pressed(7, false, &keys, 0));
    assert!(!is_input_pressed(8, false, &keys, 0));
    assert!(is_input_pressed(2, true, &keys, 0b10));
    assert!(!is_input_pressed(1, true, &keys, 0b10));
}

#[test]
fn key_edit() {
    let mut editing = true;
    let mut k = KeyConfig { use_key: true, is_mouse_button: true, code: 1 };
    handle_key_edit(&mut editing, &mut k, Input::NoInput);
    assert!(editing);
    handle_key_edit(&mut editing, &mut k, Input::Key(30));
    assert!(!editing);
    assert_eq!(k, KeyConfig { use_key: true, is_mouse_button: false, code: 30 });
    handle_key_edit(&mut editing, &mut k, Input::MouseButton(4));
    assert_eq!(k.code, 30);
    editing = true;
    handle_key_edit(&mut editing, &mut k, Input::Key(41));
    assert!(!editing);
    assert_eq!(k.code, 30);
    editing = true;
    handle_key_edit(&mut editing, &mut k, Input::MouseButton(4));
    assert_eq!(k, KeyConfig { use_key: true, is_mouse_button: true, code: 4 });
}

#[test]
fn draw_toggle() {
    let mut d = false;
    assert!(is_draw_key_released(&mut d, true));
    assert!(d);
    assert!(!is_draw_key_released(&mut d, false));
    assert!(d);
}

#[test]
fn labels() {
    let k = KeyConfig { use_key: true, is_mouse_button: true, code: 5 };
    assert_eq!(key_label("Aimbot", false, &k), "Aimbot key: Mouse 5");
    assert_eq!(key_label("Aimbot", true, &k), "Press a key...");
    let k = KeyConfig { use_key: true, is_mouse_button: false, code: 225 };
    assert_eq!(key_label("Thirdperson", false, &k), "Thirdperson key: 225");
    assert_eq!(combo_header(&[false, false]), "None");
    assert_eq!(combo_header(&[true, false, true]), "2 selected");
    assert_eq!(condition_name(5), "No MG");
}

#[test]
fn c_buffers() {
    let mut name = [0u8; 32];
    name[..6].copy_from_slice("h\u{e9}llo".as_bytes());
    assert_eq!(c_string_field(&name), "h\u{e9}llo");
    assert_eq!(c_string_field(&[0xff, 0x41]), "");
    assert_eq!(buffer_text(&name), "h\u{e9}llo");
    assert_eq!(buffer_text(&[0x61, 0x62, 0, 0xff]), "ab");
    assert_eq!(buffer_text(&[0x61, 0x62]), "ab");
}

#[test]
fn picker_layout() {
    assert_eq!(picker_rows(&vec![0, 2, 3, 6, 5]), vec![vec![0, 2], vec![3, 6], vec![5]]);
    assert_eq!(picker_rows(&vec![]), Vec::<Vec<usize>>::new());
}

#[test]
fn input_event_for_menu_edits_waiting_bindings() {
    let mut config = Config::default();
    let mut g = Globals::default();
    g.aimbot_key_editing = true;
    let mut keys = vec![0u8; 512];
    keys[20] = 1;
    assert!(on_input_event(true, true, &mut config, &mut g, &keys, 0));
    assert!(!g.aimbot_key_editing);
    assert_eq!(config.aimbot.key, KeyConfig { use_key: false, is_mouse_button: false, code: 20 });
    assert_eq!(config.thirdperson, KeyConfig::default());
    assert!(!g.aimbot_key_down);
}

#[test]
fn input_event_for_game_reads_bound_keys() {
    let mut config = Config::default();
    config.aimbot.key = KeyConfig { use_key: true, is_mouse_button: true, code: 4 };
    config.thirdperson = KeyConfig { use_key: true, is_mouse_button: false, code: 6 };
    let mut g = Globals::default();
    let mut keys = vec![0u8; 512];
    keys[6] = 1;
    assert!(!on_input_event(true, false, &mut config, &mut g, &keys, 0b1000));
    assert!(g.aimbot_key_down);
    assert!(g.thirdperson_pressed);
    assert!(!on_input_event(true, false, &mut config, &mut g, &vec![0u8; 512], 0));
    assert!(!g.aimbot_key_down);
    assert!(!g.thirdperson_pressed);
    g.aimbot_key_down = true;
    assert!(!on_input_event(false, true, &mut config, &mut g, &keys, 0b1000));
    assert!(g.aimbot_key_down);
}

#[test]
fn camera_toggles_on_key_down_only() {
    let mut t = CameraToggle::new();
    assert_eq!(t.step(false), None);
    assert_eq!(t.step(true), Some(1));
    assert_eq!(t.step(true), None);
    assert_eq!(t.step(true), None);
    assert_eq!(t.mode, 1);
    assert_eq!(t.step(false), None);
    assert_eq!(t.step(true), Some(0));
    assert_eq!(t.step(false), None);
    assert_eq!(t, CameraToggle::new());
}
