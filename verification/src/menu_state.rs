//! What the menu window remembers from one frame to the next, and how it
//! answers what the user does in it: which tab is open, which saved
//! configuration is selected, whether a key binding waits for a key, and what
//! the program has to do after a click.
use vstd::prelude::*;
use vstd::utf8::{decode_utf8, valid_utf8};

use crate::config::AimbotConfig;
use crate::globals::Globals;
use crate::menu::{c_string_field, strip_nuls};
use crate::player_db::{category_of, get, lemma_players_categorized, with_category, PlayerCategory, PlayerDb};
use crate::text::{chars_of, format_i32, push_all, signed_decimal, string_of};

verus! {

/// The tabs of the menu window.
#[derive(Clone, Copy, PartialEq, Eq, Structural, Debug)]
pub enum MenuTab {
    Aimbot,
    Esp,
    Colors,
    Misc,
    Config,
    Players,
}

/// The title on the button of a tab.
pub open spec fn tab_title_text(tab: MenuTab) -> Seq<char> {
    match tab {
        MenuTab::Aimbot => seq!['A', 'i', 'm', 'b', 'o', 't'],
        MenuTab::Esp => seq!['E', 'S', 'P'],
        MenuTab::Colors => seq!['C', 'o', 'l', 'o', 'r', 's'],
        MenuTab::Misc => seq!['M', 'i', 's', 'c'],
        MenuTab::Config => seq!['C', 'o', 'n', 'f', 'i', 'g'],
        MenuTab::Players => seq!['P', 'l', 'a', 'y', 'e', 'r', 's'],
    }
}

/// The tab buttons from left to right.
pub open spec fn tab_order() -> Seq<MenuTab> {
    seq![MenuTab::Aimbot, MenuTab::Esp, MenuTab::Colors, MenuTab::Misc, MenuTab::Config, MenuTab::Players]
}

impl MenuTab {
    /// The title on the button of this tab.
    pub fn title(self) -> (res: &'static str)
        ensures
            res@ == tab_title_text(self),
    {
        proof {
            reveal_strlit("Aimbot");
            reveal_strlit("ESP");
            reveal_strlit("Colors");
            reveal_strlit("Misc");
            reveal_strlit("Config");
            reveal_strlit("Players");
        }
        match self {
            MenuTab::Aimbot => "Aimbot",
            MenuTab::Esp => "ESP",
            MenuTab::Colors => "Colors",
            MenuTab::Misc => "Misc",
            MenuTab::Config => "Config",
            MenuTab::Players => "Players",
        }
    }
}

/// The tab buttons from left to right.
pub fn tabs() -> (res: Vec<MenuTab>)
    ensures
        res@ == tab_order(),
{
    let mut res: Vec<MenuTab> = Vec::new();
    res.push(MenuTab::Aimbot);
    res.push(MenuTab::Esp);
    res.push(MenuTab::Colors);
    res.push(MenuTab::Misc);
    res.push(MenuTab::Config);
    res.push(MenuTab::Players);
    res
}

/// What the menu keeps between frames.
#[derive(Clone, Copy, PartialEq, Eq, Structural, Debug)]
pub struct MenuState {
    /// The open tab.
    pub tab: MenuTab,
    /// The row of the selected saved configuration.
    pub selected_config: usize,
}

impl MenuState {
    /// The menu at start: the aim tab open, the first configuration
    /// selected.
    pub fn new() -> (res: MenuState)
        ensures
            res == (MenuState { tab: MenuTab::Aimbot, selected_config: 0 }),
    {
        MenuState { tab: MenuTab::Aimbot, selected_config: 0 }
    }

    /// Whether the button of `tab` is drawn as the open one.
    pub fn is_current(&self, tab: MenuTab) -> (res: bool)
        ensures
            res == (self.tab == tab),
    {
        self.tab == tab
    }

    /// Whether the row `row` of the configuration list has a Save button.
    pub fn shows_save(&self, row: usize) -> (res: bool)
        ensures
            res == (self.selected_config == row),
    {
        self.selected_config == row
    }
}

/// A click in the menu.
pub enum MenuEvent {
    /// The button of a tab.
    TabClicked(MenuTab),
    /// The aim key button.
    AimbotKeyClicked,
    /// The third-person key button.
    ThirdpersonKeyClicked,
    /// The name in a row of the configuration list.
    ConfigClicked(usize),
    /// The Save button of a row of the configuration list.
    SaveClicked(usize),
    /// The Refresh button.
    RefreshClicked,
    /// The Create button, with the name typed beside it.
    CreateClicked(String),
    /// The category button of the player with this GUID.
    CategoryClicked(String),
}

/// What the program does after a click.
#[derive(Debug, PartialEq, Eq)]
pub enum MenuAction {
    Nothing,
    /// Read the saved configuration of that name into the current one.
    LoadConfig(String),
    /// Write the current configuration under that name.
    SaveConfig(String),
    /// Read the list of saved configurations again.
    RefreshConfigs,
    /// Write the current configuration under that name, then read the list
    /// of saved configurations again.
    CreateConfig(String),
    /// Write the player database to its file.
    SavePlayers,
}

/// The menu after `e`, with `n` saved configurations listed.
pub open spec fn next_state(s: MenuState, n: nat, e: MenuEvent) -> MenuState {
    match e {
        MenuEvent::TabClicked(t) => MenuState { tab: t, ..s },
        MenuEvent::ConfigClicked(i) => if i < n {
            MenuState { selected_config: i, ..s }
        } else {
            s
        },
        _ => s,
    }
}

/// Whether `a` is the answer to `e`, given the menu `s`, the listed
/// configuration names and the player database `m` before the click.
pub open spec fn answers(
    a: MenuAction,
    s: MenuState,
    names: Seq<String>,
    e: MenuEvent,
) -> bool {
    match e {
        MenuEvent::ConfigClicked(i) => if i < names.len() {
            a matches MenuAction::LoadConfig(c) && c@ == names[i as int]@
        } else {
            a is Nothing
        },
        MenuEvent::SaveClicked(i) => if i == s.selected_config && i < names.len() {
            a matches MenuAction::SaveConfig(c) && c@ == names[i as int]@
        } else {
            a is Nothing
        },
        MenuEvent::RefreshClicked => a is RefreshConfigs,
        MenuEvent::CreateClicked(name) => a matches MenuAction::CreateConfig(c) && c@ == name@,
        MenuEvent::CategoryClicked(_) => a is SavePlayers,
        _ => a is Nothing,
    }
}

/// The shared values after `e`: a click on a key binding button starts or
/// stops its waiting for a key.
pub open spec fn next_globals(g: Globals, e: MenuEvent) -> Globals {
    match e {
        MenuEvent::AimbotKeyClicked => Globals { aimbot_key_editing: !g.aimbot_key_editing, ..g },
        MenuEvent::ThirdpersonKeyClicked => Globals {
            thirdperson_key_editing: !g.thirdperson_key_editing,
            ..g
        },
        _ => g,
    }
}

/// The player database after `e`: a click on a player's category button
/// moves the player to the next category; nothing else changes it.
pub open spec fn next_players(m: Map<Seq<char>, PlayerCategory>, e: MenuEvent) -> Map<Seq<char>, PlayerCategory> {
    match e {
        MenuEvent::CategoryClicked(g) => category_click(m, g@),
        _ => m,
    }
}

/// `m` after a click on the category button of `g`: `g` moves to the next
/// category.
pub open spec fn category_click(m: Map<Seq<char>, PlayerCategory>, g: Seq<char>) -> Map<Seq<char>, PlayerCategory> {
    with_category(m, g, category_of(m, g).spec_next())
}

/// Five clicks on a player's category button give back the database as it
/// was: the button cycles through all five categories.
pub proof fn lemma_five_clicks_restore(db: &PlayerDb, g: Seq<char>)
    requires
        db.wf(),
    ensures
        ({
            let m = db.players();
            category_click(category_click(category_click(category_click(category_click(m, g), g), g), g), g) == m
        }),
{
    let m = db.players();
    lemma_players_categorized(db);
    let m1 = category_click(m, g);
    let m2 = category_click(m1, g);
    let m3 = category_click(m2, g);
    let m4 = category_click(m3, g);
    let m5 = category_click(m4, g);
    let c = category_of(m, g);
    assert(category_of(m1, g) == c.spec_next());
    assert(category_of(m2, g) == c.spec_next().spec_next());
    assert(category_of(m3, g) == c.spec_next().spec_next().spec_next());
    assert(category_of(m4, g) == c.spec_next().spec_next().spec_next().spec_next());
    assert(category_of(m5, g) == c);
    assert forall|k: Seq<char>| k != g implies (m5.contains_key(k) == m.contains_key(k) && (m.contains_key(k) ==> m5[k] == m[k])) by {
    }
    assert(m5 =~= m);
}

/// Answers a click: updates the menu, the shared values and the player
/// database, and says what the program has to do with the configuration
/// files.
pub fn handle_event(
    state: &mut MenuState,
    globals: &mut Globals,
    names: &Vec<String>,
    db: &mut PlayerDb,
    event: MenuEvent,
) -> (res: MenuAction)
    requires
        old(db).wf(),
    ensures
        *final(state) == next_state(*old(state), names@.len(), event),
        *final(globals) == next_globals(*old(globals), event),
        answers(res, *old(state), names@, event),
        final(db).wf(),
        final(db).names_view() == old(db).names_view(),
        final(db).players() == next_players(old(db).players(), event),
{
    match event {
        MenuEvent::TabClicked(t) => {
            state.tab = t;
            MenuAction::Nothing
        },
        MenuEvent::AimbotKeyClicked => {
            globals.aimbot_key_editing = !globals.aimbot_key_editing;
            MenuAction::Nothing
        },
        MenuEvent::ThirdpersonKeyClicked => {
            globals.thirdperson_key_editing = !globals.thirdperson_key_editing;
            MenuAction::Nothing
        },
        MenuEvent::ConfigClicked(i) => {
            if i < names.len() {
                state.selected_config = i;
                MenuAction::LoadConfig(names[i].clone())
            } else {
                MenuAction::Nothing
            }
        },
        MenuEvent::SaveClicked(i) => {
            if i == state.selected_config && i < names.len() {
                MenuAction::SaveConfig(names[i].clone())
            } else {
                MenuAction::Nothing
            }
        },
        MenuEvent::RefreshClicked => MenuAction::RefreshConfigs,
        MenuEvent::CreateClicked(name) => MenuAction::CreateConfig(name),
        MenuEvent::CategoryClicked(guid) => {
            let cat = get(db, guid.as_str());
            crate::player_db::set(db, guid.as_str(), cat.next());
            MenuAction::SavePlayers
        },
    }
}

/// `"Aimbot FOV: {fov}"`.
pub open spec fn fov_label_text(fov: i32) -> Seq<char> {
    seq!['A', 'i', 'm', 'b', 'o', 't', ' ', 'F', 'O', 'V', ':', ' '] + signed_decimal(fov as int)
}

/// The label beside the field-of-view slider.
pub fn fov_label(aimbot: &AimbotConfig) -> (res: String)
    ensures
        res@ == fov_label_text(aimbot.fov),
{
    proof {
        reveal_strlit("Aimbot FOV: ");
    }
    let mut out = chars_of("Aimbot FOV: ");
    let digits = format_i32(aimbot.fov);
    push_all(&mut out, digits.as_slice());
    string_of(out.as_slice())
}

/// The raw name and GUID buffers of one client slot, as the engine fills
/// them.
pub struct PlayerInfo {
    pub name: Vec<u8>,
    pub guid: Vec<u8>,
}

/// One row of the player list.
#[derive(Debug, PartialEq, Eq)]
pub struct PlayerRow {
    pub name: String,
    pub guid: String,
    pub category: PlayerCategory,
}

/// The text of a NUL-padded buffer: its UTF-8 text without trailing NULs,
/// empty when it is not valid UTF-8.
pub open spec fn buffer_name(b: Seq<u8>) -> Seq<char> {
    if valid_utf8(b) {
        strip_nuls(decode_utf8(b))
    } else {
        Seq::<char>::empty()
    }
}

/// The rows of the player list for the client slots `infos`: one for each
/// slot with a non-empty name, in slot order, with its name, GUID and the
/// category that `m` gives the GUID.
pub open spec fn shown_rows(infos: Seq<PlayerInfo>, m: Map<Seq<char>, PlayerCategory>) -> Seq<(Seq<char>, Seq<char>, PlayerCategory)>
    decreases infos.len(),
{
    if infos.len() == 0 {
        Seq::empty()
    } else {
        let rest = shown_rows(infos.drop_last(), m);
        let name = buffer_name(infos.last().name@);
        let guid = buffer_name(infos.last().guid@);
        if name.len() == 0 {
            rest
        } else {
            rest.push((name, guid, category_of(m, guid)))
        }
    }
}

/// The views of the rows of the player list.
pub open spec fn row_views(rows: Seq<PlayerRow>) -> Seq<(Seq<char>, Seq<char>, PlayerCategory)> {
    rows.map_values(|r: PlayerRow| (r.name@, r.guid@, r.category))
}

/// The rows of the player list: the slots with a name, each with its GUID
/// and category.
pub fn player_rows(db: &PlayerDb, infos: &Vec<PlayerInfo>) -> (res: Vec<PlayerRow>)
    requires
        db.wf(),
    ensures
        row_views(res@) == shown_rows(infos@, db.players()),
{
    let mut res: Vec<PlayerRow> = Vec::new();
    let mut i: usize = 0;
    while i < infos.len()
        invariant
            i <= infos@.len(),
            db.wf(),
            row_views(res@) == shown_rows(infos@.take(i as int), db.players()),
        decreases infos@.len() - i,
    {
        assert(infos@.take(i + 1).drop_last() == infos@.take(i as int));
        let name = c_string_field(infos[i].name.as_slice());
        let guid = c_string_field(infos[i].guid.as_slice());
        if !name.as_str().is_empty() {
            let category = get(db, guid.as_str());
            let ghost before = res@;
            res.push(PlayerRow { name, guid, category });
            assert(row_views(res@) == row_views(before).push((res@.last().name@, res@.last().guid@, category)));
        }
        i = i + 1;
    }
    assert(infos@.take(infos@.len() as int) == infos@);
    res
}


/// What a click on the configuration list does: a click on a listed name
/// selects that row, so that its Save button shows, and loads the
/// configuration of that name; a Save click saves under the name of its row
/// only when that row is the selected one; a click past the list, and a
/// Save click on any other row, does nothing.
pub proof fn lemma_config_list_law(s: MenuState, names: Seq<String>, i: usize, a: MenuAction, b: MenuAction)
    requires
        answers(a, s, names, MenuEvent::ConfigClicked(i)),
        answers(b, s, names, MenuEvent::SaveClicked(i)),
    ensures
        i < names.len() ==> next_state(s, names.len(), MenuEvent::ConfigClicked(i)).selected_config == i
            && next_state(s, names.len(), MenuEvent::ConfigClicked(i)).tab == s.tab
            && a is LoadConfig && a->LoadConfig_0@ == names[i as int]@,
        i >= names.len() ==> a is Nothing && next_state(s, names.len(), MenuEvent::ConfigClicked(i)) == s,
        b is SaveConfig <==> (i == s.selected_config && i < names.len()),
        b is SaveConfig ==> b->SaveConfig_0@ == names[i as int]@,
        !(b is SaveConfig) ==> b is Nothing,
        next_state(s, names.len(), MenuEvent::SaveClicked(i)) == s,
{
}

/// A tab click opens that tab and changes nothing else; the key binding
/// buttons each start or stop the waiting of their own binding only.
pub proof fn lemma_tab_and_key_law(s: MenuState, g: Globals, t: MenuTab, n: nat)
    ensures
        next_state(s, n, MenuEvent::TabClicked(t)) == (MenuState { tab: t, selected_config: s.selected_config }),
        next_globals(g, MenuEvent::AimbotKeyClicked).aimbot_key_editing == !g.aimbot_key_editing,
        next_globals(g, MenuEvent::AimbotKeyClicked).thirdperson_key_editing == g.thirdperson_key_editing,
        next_globals(g, MenuEvent::ThirdpersonKeyClicked).thirdperson_key_editing == !g.thirdperson_key_editing,
        next_globals(g, MenuEvent::ThirdpersonKeyClicked).aimbot_key_editing == g.aimbot_key_editing,
        next_globals(g, MenuEvent::TabClicked(t)) == g,
{
}

} // verus!
