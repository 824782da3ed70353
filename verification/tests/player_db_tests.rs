use tf_rs::config::ColorF;
use tf_rs::player_db;
use tf_rs::player_db::{
    get, get_names, load, save, set_name, PlayerCategory, PlayerCategoryColors, PlayerDb,
};

#[test]
fn names_of_categories() {
    assert_eq!(PlayerCategory::NoCategory.name(), "None");
    assert_eq!(PlayerCategory::Category1.name(), "Cat 1");
    assert_eq!(PlayerCategory::Category4.name(), "Cat 4");
}

#[test]
fn next_cycles_through_all_categories() {
    let mut c = PlayerCategory::NoCategory;
    let mut seen = Vec::new();
    for _ in 0..5 {
        seen.push(c);
        c = c.next();
    }
    assert_eq!(c, PlayerCategory::NoCategory);
    assert_eq!(
        seen,
        vec![
            PlayerCategory::NoCategory,
            PlayerCategory::Category1,
            PlayerCategory::Category2,
            PlayerCategory::Category3,
            PlayerCategory::Category4
        ]
    );
}

#[test]
fn from_str_reads_fixed_names() {
    assert_eq!(PlayerCategory::from_str("Cat 3"), PlayerCategory::Category3);
    assert_eq!(PlayerCategory::from_str("cat 3"), PlayerCategory::NoCategory);
    assert_eq!(PlayerCategory::from_str("None"), PlayerCategory::NoCategory);
    assert_eq!(PlayerCategory::from_str(" Cat 1"), PlayerCategory::NoCategory);
    for c in [
        PlayerCategory::NoCategory,
        PlayerCategory::Category1,
        PlayerCategory::Category2,
        PlayerCategory::Category3,
        PlayerCategory::Category4,
    ] {
        assert_eq!(PlayerCategory::from_str(c.name()), c);
    }
}

#[test]
fn default_names() {
    let db = PlayerDb::new();
    assert_eq!(get_names(&db), ["Cat 1".to_string(), "Cat 2".to_string(), "Cat 3".to_string(), "Cat 4".to_string()]);
    assert_eq!(PlayerCategory::Category2.display_name(&db), "Cat 2");
    assert_eq!(PlayerCategory::NoCategory.display_name(&db), "None");
}

#[test]
fn get_after_set() {
    let mut db = PlayerDb::new();
    assert_eq!(get(&db, "[U:1:1]"), PlayerCategory::NoCategory);
    player_db::set(&mut db, "[U:1:1]", PlayerCategory::Category2);
    player_db::set(&mut db, "[U:1:2]", PlayerCategory::Category4);
    assert_eq!(get(&db, "[U:1:1]"), PlayerCategory::Category2);
    assert_eq!(get(&db, "[U:1:2]"), PlayerCategory::Category4);
    player_db::set(&mut db, "[U:1:1]", PlayerCategory::Category3);
    assert_eq!(get(&db, "[U:1:1]"), PlayerCategory::Category3);
    assert_eq!(get(&db, "[U:1:2]"), PlayerCategory::Category4);
    player_db::set(&mut db, "[U:1:1]", PlayerCategory::NoCategory);
    assert_eq!(get(&db, "[U:1:1]"), PlayerCategory::NoCategory);
    assert_eq!(get(&db, "[U:1:2]"), PlayerCategory::Category4);
}

#[test]
fn set_name_renames_one_slot() {
    let mut db = PlayerDb::new();
    set_name(&mut db, 1, "Friends");
    set_name(&mut db, 4, "Ignored");
    assert_eq!(get_names(&db), ["Cat 1".to_string(), "Friends".to_string(), "Cat 3".to_string(), "Cat 4".to_string()]);
    assert_eq!(PlayerCategory::Category2.display_name(&db), "Friends");
}

#[test]
fn color_of_categories() {
    let c = |v: u32| ColorF { r: v, g: v, b: v, a: v };
    let colors = PlayerCategoryColors { category1: c(1), category2: c(2), category3: c(3), category4: c(4) };
    assert_eq!(PlayerCategory::Category3.color(&colors), c(3));
    assert_eq!(PlayerCategory::NoCategory.color(&colors), c(0));
}

#[test]
fn save_writes_headers_then_entries() {
    let mut db = PlayerDb::new();
    set_name(&mut db, 0, "Cheaters");
    player_db::set(&mut db, "[U:1:10]", PlayerCategory::Category1);
    player_db::set(&mut db, "[U:1:20]", PlayerCategory::Category3);
    assert_eq!(
        save(&db),
        "#cat1=Cheaters\n#cat2=Cat 2\n#cat3=Cat 3\n#cat4=Cat 4\n[U:1:10]|Cat 1\n[U:1:20]|Cat 3\n"
    );
}

#[test]
fn load_reads_headers_and_entries() {
    let mut db = PlayerDb::new();
    player_db::set(&mut db, "old", PlayerCategory::Category1);
    load(
        &mut db,
        "  #cat2=Friends  \r\n#cat9=x\n#catx\n\nabc|Cat 2\nabc|Cat 4\ndef|Cat 5\n#ghi|Cat 1\nnopipe\n  xyz|Cat 1\n",
    );
    assert_eq!(get_names(&db), ["Cat 1".to_string(), "Friends".to_string(), "Cat 3".to_string(), "Cat 4".to_string()]);
    assert_eq!(get(&db, "old"), PlayerCategory::NoCategory);
    assert_eq!(get(&db, "abc"), PlayerCategory::Category4);
    assert_eq!(get(&db, "def"), PlayerCategory::NoCategory);
    assert_eq!(get(&db, "#ghi"), PlayerCategory::NoCategory);
    assert_eq!(get(&db, "xyz"), PlayerCategory::Category1);
}

#[test]
fn load_of_saved_text_restores_database() {
    let mut db = PlayerDb::new();
    set_name(&mut db, 3, "Team mates");
    player_db::set(&mut db, "[U:1:7]", PlayerCategory::Category4);
    player_db::set(&mut db, "[U:1:8]", PlayerCategory::Category2);
    let text = save(&db);
    let mut other = PlayerDb::new();
    set_name(&mut other, 0, "zzz");
    player_db::set(&mut other, "[U:1:9]", PlayerCategory::Category1);
    load(&mut other, &text);
    assert_eq!(get_names(&other), get_names(&db));
    assert_eq!(get(&other, "[U:1:7]"), PlayerCategory::Category4);
    assert_eq!(get(&other, "[U:1:8]"), PlayerCategory::Category2);
    assert_eq!(get(&other, "[U:1:9]"), PlayerCategory::NoCategory);
}

#[test]
fn load_of_empty_text_keeps_names_and_clears_players() {
    let mut db = PlayerDb::new();
    set_name(&mut db, 2, "Kept");
    player_db::set(&mut db, "a", PlayerCategory::Category1);
    load(&mut db, "");
    assert_eq!(get_names(&db)[2], "Kept");
    assert_eq!(get(&db, "a"), PlayerCategory::NoCategory);
}
