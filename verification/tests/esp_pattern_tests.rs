use tf_rs::config::{ESPConfig, EntityESPConfig};
use tf_rs::esp::{
    building_name, esp_decision, esp_pass, label_position, DrawCommand, EntityClass,
    EntityOnScreen, EntitySeen, EspDraw, LabelColor, ScreenBox,
};
use tf_rs::globals::Target;
use tf_rs::pattern::{find_pattern, maps_line, parse_pattern, MapsLine};

fn all_on() -> EntityESPConfig {
    EntityESPConfig { boxes: true, names: true, health: true, conds: true }
}

fn seen(index: i32, class: EntityClass, team: i32) -> EntitySeen {
    EntitySeen {
        index,
        dormant: false,
        is_local: false,
        class,
        team,
        dead: false,
        disguised: false,
        taunting: false,
        zoomed: false,
        invisible: false,
        milked: false,
    }
}

fn labels(v: &[(&str, LabelColor)]) -> Vec<(String, LabelColor)> {
    v.iter().map(|(s, c)| (s.to_string(), *c)).collect()
}

#[test]
fn enemy_player_target_with_conditions() {
    let mut c = ESPConfig::default();
    c.master = true;
    c.player_enemy = all_on();
    c.aimbot_target = true;
    let mut e = seen(7, EntityClass::Player, 3);
    e.taunting = true;
    e.milked = true;
    let t = Some(Target { target_index: 7, should_headshot: true });
    assert_eq!(
        esp_decision(&c, 2, false, t, &e),
        Some(EspDraw {
            boxes: true,
            names: true,
            health: true,
            orange: true,
            horizontal_health: false,
            labels: labels(&[
                ("TARGET", LabelColor::White),
                ("HS", LabelColor::Red),
                ("TAUNTING", LabelColor::White),
                ("MILKED", LabelColor::White),
            ]),
        })
    );
    let d = esp_decision(&c, 2, true, t, &e).unwrap();
    assert!(!d.orange);
    assert_eq!(d.labels, labels(&[("TAUNTING", LabelColor::White), ("MILKED", LabelColor::White)]));
}

#[test]
fn skipped_entities() {
    let mut c = ESPConfig::default();
    c.master = true;
    c.player_enemy = all_on();
    c.building_enemy = all_on();
    let mut e = seen(4, EntityClass::Player, 3);
    e.dormant = true;
    assert_eq!(esp_decision(&c, 2, false, None, &e), None);
    let mut e = seen(4, EntityClass::Player, 3);
    e.is_local = true;
    assert_eq!(esp_decision(&c, 2, false, None, &e), None);
    let mut e = seen(4, EntityClass::Player, 3);
    e.dead = true;
    assert_eq!(esp_decision(&c, 2, false, None, &e), None);
    assert_eq!(esp_decision(&c, 3, false, None, &seen(4, EntityClass::Player, 3)), None);
    assert_eq!(esp_decision(&c, 3, false, None, &seen(4, EntityClass::Sentry, 3)), None);
    assert_eq!(esp_decision(&c, 2, false, None, &seen(4, EntityClass::Other, 3)), None);
}

#[test]
fn buildings_draw_their_group() {
    let mut c = ESPConfig::default();
    c.master = true;
    c.building_friendly = EntityESPConfig { boxes: true, names: false, health: true, conds: true };
    let d = esp_decision(&c, 3, false, None, &seen(9, EntityClass::Dispenser, 3)).unwrap();
    assert_eq!(
        d,
        EspDraw {
            boxes: true,
            names: false,
            health: true,
            orange: false,
            horizontal_health: true,
            labels: Vec::new(),
        }
    );
    let d = esp_decision(&c, 3, false, None, &seen(9, EntityClass::Teleporter, 1)).unwrap();
    assert!(!d.boxes && !d.names && !d.health);
    assert_eq!(building_name(EntityClass::Sentry), Some("Sentry Gun"));
    assert_eq!(building_name(EntityClass::Teleporter), Some("Teleporter"));
    assert_eq!(building_name(EntityClass::Player), None);
}

#[test]
fn labels_stack_beside_the_box() {
    assert_eq!(label_position(100, 50, 0), (110, 50));
    assert_eq!(label_position(100, 50, 2), (110, 70));
    assert_eq!(label_position(-20, -5, 1), (-10, 5));
}

#[test]
fn pattern_words() {
    assert_eq!(
        parse_pattern("48 8B ?? 05 ? zz +1f 100  0A"),
        vec![Some(0x48), Some(0x8b), None, Some(5), None, None, Some(0x1f), None, Some(0x0a)]
    );
    assert_eq!(parse_pattern("  "), Vec::new());
}

#[test]
fn memory_map_lines() {
    let lib = "libfoo.so";
    assert_eq!(
        maps_line("7f00-7f10 r-xp 00000000 08:01 123 /usr/lib/libfoo.so", lib),
        MapsLine::Region(0x7f00, 0x7f10)
    );
    assert_eq!(maps_line("7f00-7f10 ---p 00000000 08:01 123 /usr/lib/libfoo.so", lib), MapsLine::Skip);
    assert_eq!(maps_line("7f00-7f10 r-xp 00000000 08:01 123 /usr/lib/libbar.so", lib), MapsLine::Skip);
    assert_eq!(maps_line("libfoo.so", lib), MapsLine::Malformed);
    assert_eq!(maps_line("zz-10 r--p libfoo.so", lib), MapsLine::Malformed);
    assert_eq!(maps_line("7f00 r--p libfoo.so", lib), MapsLine::Malformed);
}

#[test]
fn first_match_of_pattern() {
    let region = [1u8, 2, 3, 2, 5, 6];
    assert_eq!(find_pattern(&region, &[Some(2), None, Some(2)]), Some(1));
    assert_eq!(find_pattern(&region, &[Some(2), Some(5)]), Some(3));
    assert_eq!(find_pattern(&region, &[Some(5), Some(6)]), None);
    assert_eq!(find_pattern(&region, &[Some(9)]), None);
    assert_eq!(find_pattern(&region, &[]), Some(0));
    assert_eq!(find_pattern(&[], &[]), None);
}

#[test]
fn nothing_drawn_while_overlay_is_off() {
    let mut c = ESPConfig::default();
    c.player_enemy = all_on();
    assert_eq!(esp_decision(&c, 2, false, None, &seen(4, EntityClass::Player, 3)), None);
    let ents = vec![EntityOnScreen {
        seen: seen(4, EntityClass::Player, 3),
        screen_box: Some(ScreenBox { left: 0, top: 0, right: 10, bottom: 20 }),
        name: b"bob".to_vec(),
    }];
    assert!(esp_pass(&c, 2, false, None, &ents).is_empty());
}

#[test]
fn overlay_commands_for_entities() {
    let mut c = ESPConfig::default();
    c.master = true;
    c.aimbot_target = true;
    c.player_enemy = EntityESPConfig { boxes: true, names: true, health: false, conds: true };
    c.building_enemy = EntityESPConfig { boxes: false, names: true, health: true, conds: false };
    let b = ScreenBox { left: 5, top: 40, right: 30, bottom: 90 };
    let mut p = seen(4, EntityClass::Player, 3);
    p.zoomed = true;
    let ents = vec![
        EntityOnScreen { seen: p, screen_box: Some(b), name: b"bob\0\0".to_vec() },
        EntityOnScreen { seen: seen(5, EntityClass::Player, 3), screen_box: None, name: Vec::new() },
        EntityOnScreen { seen: seen(6, EntityClass::Sentry, 3), screen_box: Some(b), name: Vec::new() },
    ];
    let t = Some(Target { target_index: 4, should_headshot: false });
    let cmds = esp_pass(&c, 2, false, t, &ents);
    assert_eq!(
        cmds,
        vec![
            DrawCommand::Outline { screen_box: b, orange: true, team: 3 },
            DrawCommand::Name { screen_box: b, text: "bob\0\0".to_string(), orange: true, team: 3 },
            DrawCommand::Label { x: 40, y: 40, text: "TARGET".to_string(), color: LabelColor::White },
            DrawCommand::Label { x: 40, y: 50, text: "ZOOMED".to_string(), color: LabelColor::White },
            DrawCommand::Name { screen_box: b, text: "Sentry Gun".to_string(), orange: false, team: 3 },
            DrawCommand::Health { screen_box: b, entity: 6, horizontal: true },
        ]
    );
}
