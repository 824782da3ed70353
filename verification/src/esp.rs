//! What the overlay draws for one entity: whether it is drawn at all, which
//! of box, name and health bar, in which color, and the labels beside it.
use vstd::prelude::*;

use crate::config::{ESPConfig, EntityESPConfig};
use crate::globals::Target;
use crate::menu::utf8_text;
use vstd::utf8::{decode_utf8, valid_utf8};

verus! {

/// The kinds of entity the overlay tells apart.
#[derive(Clone, Copy, PartialEq, Eq, Structural, Debug)]
pub enum EntityClass {
    Player,
    Sentry,
    Dispenser,
    Teleporter,
    Other,
}

/// What the game tells of one entity.
#[derive(Clone, Copy, PartialEq, Eq, Structural, Debug)]
pub struct EntitySeen {
    /// The entity index.
    pub index: i32,
    pub dormant: bool,
    /// The entity is the local player.
    pub is_local: bool,
    pub class: EntityClass,
    pub team: i32,
    pub dead: bool,
    pub disguised: bool,
    pub taunting: bool,
    pub zoomed: bool,
    pub invisible: bool,
    pub milked: bool,
}

/// The color of a label.
#[derive(Clone, Copy, PartialEq, Eq, Structural, Debug)]
pub enum LabelColor {
    White,
    Red,
}

/// What is drawn for an entity. The box and the name are drawn in orange
/// for the aim target, else in the team's color.
#[derive(Debug, PartialEq, Eq)]
pub struct EspDraw {
    pub boxes: bool,
    pub names: bool,
    pub health: bool,
    pub orange: bool,
    /// The health bar lies under the box (buildings) rather than beside it.
    pub horizontal_health: bool,
    /// The labels beside the box, from the top down.
    pub labels: Vec<(String, LabelColor)>,
}

/// `EspDraw` with its labels as character sequences.
pub struct EspDrawView {
    pub boxes: bool,
    pub names: bool,
    pub health: bool,
    pub orange: bool,
    pub horizontal_health: bool,
    pub labels: Seq<(Seq<char>, LabelColor)>,
}

/// The labels of an `EspDraw` as character sequences.
pub open spec fn label_views(ls: Seq<(String, LabelColor)>) -> Seq<(Seq<char>, LabelColor)> {
    ls.map_values(|l: (String, LabelColor)| (l.0@, l.1))
}

/// The view of an overlay decision.
pub open spec fn draw_view(d: Option<EspDraw>) -> Option<EspDrawView> {
    match d {
        Some(d) => Some(
            EspDrawView {
                boxes: d.boxes,
                names: d.names,
                health: d.health,
                orange: d.orange,
                horizontal_health: d.horizontal_health,
                labels: label_views(d.labels@),
            },
        ),
        None => None,
    }
}

/// Whether anything is drawn for entities of a group.
pub open spec fn shows_any(c: EntityESPConfig) -> bool {
    c.boxes || c.names || c.health || c.conds
}

/// Whether `e` is the aim target and the target is to be marked.
pub open spec fn marked_target(c: ESPConfig, local_dead: bool, target: Option<Target>, e: EntitySeen) -> bool {
    &&& c.aimbot_target
    &&& !local_dead
    &&& target matches Some(t) && t.target_index == e.index
}

pub open spec fn target_text() -> Seq<char> {
    seq!['T', 'A', 'R', 'G', 'E', 'T']
}

pub open spec fn headshot_text() -> Seq<char> {
    seq!['H', 'S']
}

/// The labels of the aim target: `TARGET` in white, then `HS` in red when it
/// is to be hit in the head.
pub open spec fn target_labels(c: ESPConfig, local_dead: bool, target: Option<Target>, e: EntitySeen) -> Seq<(Seq<char>, LabelColor)> {
    if marked_target(c, local_dead, target, e) {
        seq![(target_text(), LabelColor::White)] + if target->0.should_headshot {
            seq![(headshot_text(), LabelColor::Red)]
        } else {
            Seq::empty()
        }
    } else {
        Seq::empty()
    }
}

/// `seq![(text, White)]` when `on`, else nothing.
pub open spec fn white_if(on: bool, text: Seq<char>) -> Seq<(Seq<char>, LabelColor)> {
    if on {
        seq![(text, LabelColor::White)]
    } else {
        Seq::empty()
    }
}

/// The condition labels of a player, in white: `DISGUISED`, `TAUNTING`,
/// `ZOOMED`, `INVISIBLE`, `MILKED`, for those it is in.
pub open spec fn condition_labels(e: EntitySeen) -> Seq<(Seq<char>, LabelColor)> {
    white_if(e.disguised, seq!['D', 'I', 'S', 'G', 'U', 'I', 'S', 'E', 'D'])
        + white_if(e.taunting, seq!['T', 'A', 'U', 'N', 'T', 'I', 'N', 'G'])
        + white_if(e.zoomed, seq!['Z', 'O', 'O', 'M', 'E', 'D'])
        + white_if(e.invisible, seq!['I', 'N', 'V', 'I', 'S', 'I', 'B', 'L', 'E'])
        + white_if(e.milked, seq!['M', 'I', 'L', 'K', 'E', 'D'])
}

/// What is drawn for `e`, seen by a local player of team `local_team`:
/// nothing while the overlay is switched off, nothing for a dormant entity, the local player, a dead player, a friendly
/// entity whose group shows nothing, or an entity of another kind; else the
/// parts its group's settings ask for, in orange when it is the marked
/// target, with the target labels and, for a player whose group shows
/// conditions, the condition labels.
pub open spec fn spec_esp_decision(
    c: ESPConfig,
    local_team: i32,
    local_dead: bool,
    target: Option<Target>,
    e: EntitySeen,
) -> Option<EspDrawView> {
    let marked = marked_target(c, local_dead, target, e);
    let head = target_labels(c, local_dead, target, e);
    let friendly = e.team == local_team;
    if !c.master || e.dormant || e.is_local {
        None
    } else {
        match e.class {
            EntityClass::Player => if e.dead || (friendly && !shows_any(c.player_friendly)) {
                None
            } else {
                let g = if friendly { c.player_friendly } else { c.player_enemy };
                Some(
                    EspDrawView {
                        boxes: g.boxes,
                        names: g.names,
                        health: g.health,
                        orange: marked,
                        horizontal_health: false,
                        labels: head + if g.conds { condition_labels(e) } else { Seq::empty() },
                    },
                )
            },
            EntityClass::Other => None,
            _ => if friendly && !shows_any(c.building_friendly) {
                None
            } else {
                let g = if friendly { c.building_friendly } else { c.building_enemy };
                Some(
                    EspDrawView {
                        boxes: g.boxes,
                        names: g.names,
                        health: g.health,
                        orange: marked,
                        horizontal_health: true,
                        labels: head,
                    },
                )
            },
        }
    }
}

fn push_label(labels: &mut Vec<(String, LabelColor)>, on: bool, text: &str, color: LabelColor)
    ensures
        label_views(final(labels)@) == label_views(old(labels)@) + (if on {
            seq![(text@, color)]
        } else {
            Seq::empty()
        }),
{
    if on {
        let ghost before = labels@;
        labels.push((String::from_str(text), color));
        assert(label_views(labels@) =~= label_views(before) + seq![(text@, color)]);
    } else {
        assert(label_views(labels@) =~= label_views(labels@) + Seq::<(Seq<char>, LabelColor)>::empty());
    }
}

/// The target labels for a marked (`marked`) target that is or is not to be
/// hit in the head.
fn target_label_list(marked: bool, headshot: bool) -> (res: Vec<(String, LabelColor)>)
    ensures
        label_views(res@) == (if marked {
            seq![(target_text(), LabelColor::White)] + if headshot {
                seq![(headshot_text(), LabelColor::Red)]
            } else {
                Seq::empty()
            }
        } else {
            Seq::empty()
        }),
{
    proof {
        reveal_strlit("TARGET");
        reveal_strlit("HS");
        assert("TARGET"@ =~= target_text());
        assert("HS"@ =~= headshot_text());
    }
    let mut labels: Vec<(String, LabelColor)> = Vec::new();
    assert(label_views(labels@) =~= Seq::<(Seq<char>, LabelColor)>::empty());
    push_label(&mut labels, marked, "TARGET", LabelColor::White);
    push_label(&mut labels, marked && headshot, "HS", LabelColor::Red);
    proof {
        if marked {
            assert(label_views(labels@) =~= seq![(target_text(), LabelColor::White)] + if headshot {
                seq![(headshot_text(), LabelColor::Red)]
            } else {
                Seq::empty()
            });
        } else {
            assert(label_views(labels@) =~= Seq::<(Seq<char>, LabelColor)>::empty());
        }
    }
    labels
}

/// Adds the condition labels of `e`.
fn push_condition_labels(labels: &mut Vec<(String, LabelColor)>, e: &EntitySeen)
    ensures
        label_views(final(labels)@) == label_views(old(labels)@) + condition_labels(*e),
{
    proof {
        reveal_strlit("DISGUISED");
        reveal_strlit("TAUNTING");
        reveal_strlit("ZOOMED");
        reveal_strlit("INVISIBLE");
        reveal_strlit("MILKED");
        assert("DISGUISED"@ =~= seq!['D', 'I', 'S', 'G', 'U', 'I', 'S', 'E', 'D']);
        assert("TAUNTING"@ =~= seq!['T', 'A', 'U', 'N', 'T', 'I', 'N', 'G']);
        assert("ZOOMED"@ =~= seq!['Z', 'O', 'O', 'M', 'E', 'D']);
        assert("INVISIBLE"@ =~= seq!['I', 'N', 'V', 'I', 'S', 'I', 'B', 'L', 'E']);
        assert("MILKED"@ =~= seq!['M', 'I', 'L', 'K', 'E', 'D']);
    }
    let ghost head = label_views(labels@);
    push_label(labels, e.disguised, "DISGUISED", LabelColor::White);
    let ghost l1 = label_views(labels@);
    push_label(labels, e.taunting, "TAUNTING", LabelColor::White);
    let ghost l2 = label_views(labels@);
    push_label(labels, e.zoomed, "ZOOMED", LabelColor::White);
    let ghost l3 = label_views(labels@);
    push_label(labels, e.invisible, "INVISIBLE", LabelColor::White);
    let ghost l4 = label_views(labels@);
    push_label(labels, e.milked, "MILKED", LabelColor::White);
    let ghost w1 = white_if(e.disguised, seq!['D', 'I', 'S', 'G', 'U', 'I', 'S', 'E', 'D']);
    let ghost w2 = white_if(e.taunting, seq!['T', 'A', 'U', 'N', 'T', 'I', 'N', 'G']);
    let ghost w3 = white_if(e.zoomed, seq!['Z', 'O', 'O', 'M', 'E', 'D']);
    let ghost w4 = white_if(e.invisible, seq!['I', 'N', 'V', 'I', 'S', 'I', 'B', 'L', 'E']);
    let ghost w5 = white_if(e.milked, seq!['M', 'I', 'L', 'K', 'E', 'D']);
    assert(l1 == head + w1);
    assert(l2 == l1 + w2);
    assert(l3 == l2 + w3);
    assert(l4 == l3 + w4);
    assert(label_views(labels@) == l4 + w5);
    assert(label_views(labels@) =~= head + (w1 + w2 + w3 + w4 + w5));
}

/// What the overlay draws for `e`; `None` when it draws nothing.
pub fn esp_decision(
    config: &ESPConfig,
    local_team: i32,
    local_dead: bool,
    target: Option<Target>,
    e: &EntitySeen,
) -> (res: Option<EspDraw>)
    ensures
        draw_view(res) == spec_esp_decision(*config, local_team, local_dead, target, *e),
{
    if !config.master || e.dormant || e.is_local {
        return None;
    }
    let marked = config.aimbot_target && !local_dead && match target {
        Some(t) => t.target_index == e.index,
        None => false,
    };
    let friendly = e.team == local_team;
    let group = match e.class {
        EntityClass::Player => {
            if e.dead || (friendly && !config.player_friendly.bool()) {
                return None;
            }
            if friendly { config.player_friendly } else { config.player_enemy }
        },
        EntityClass::Other => {
            return None;
        },
        _ => {
            if friendly && !config.building_friendly.bool() {
                return None;
            }
            if friendly { config.building_friendly } else { config.building_enemy }
        },
    };
    let headshot = match target {
        Some(t) => t.should_headshot,
        None => false,
    };
    assert(marked == marked_target(*config, local_dead, target, *e));
    let mut labels = target_label_list(marked, headshot);
    let is_player = match e.class {
        EntityClass::Player => true,
        _ => false,
    };
    if is_player && group.conds {
        push_condition_labels(&mut labels, e);
    } else {
        assert(label_views(labels@) =~= label_views(labels@) + Seq::<(Seq<char>, LabelColor)>::empty());
    }
    Some(
        EspDraw {
            boxes: group.boxes,
            names: group.names,
            health: group.health,
            orange: marked,
            horizontal_health: !is_player,
            labels,
        },
    )
}

/// The name drawn for a building: `Sentry Gun`, `Dispenser` or
/// `Teleporter`; players and other entities have none.
pub fn building_name(class: EntityClass) -> (res: Option<&'static str>)
    ensures
        res matches Some(s) ==> s@ == match class {
            EntityClass::Sentry => seq!['S', 'e', 'n', 't', 'r', 'y', ' ', 'G', 'u', 'n'],
            EntityClass::Dispenser => seq!['D', 'i', 's', 'p', 'e', 'n', 's', 'e', 'r'],
            _ => seq!['T', 'e', 'l', 'e', 'p', 'o', 'r', 't', 'e', 'r'],
        },
        res is Some <==> (class == EntityClass::Sentry || class == EntityClass::Dispenser
            || class == EntityClass::Teleporter),
{
    proof {
        reveal_strlit("Sentry Gun");
        reveal_strlit("Dispenser");
        reveal_strlit("Teleporter");
    }
    match class {
        EntityClass::Sentry => Some("Sentry Gun"),
        EntityClass::Dispenser => Some("Dispenser"),
        EntityClass::Teleporter => Some("Teleporter"),
        _ => None,
    }
}

/// Where the label at position `j` (from the top) is drawn beside a box
/// whose right edge is `right` and top edge is `top`.
pub fn label_position(right: i32, top: i32, j: usize) -> (res: (i32, i32))
    requires
        right + 10 <= i32::MAX,
        10 * j <= i32::MAX,
        i32::MIN <= top + 10 * j <= i32::MAX,
    ensures
        res.0 == right + 10,
        res.1 == top + 10 * j,
{
    (right + 10, top + (j as i32) * 10)
}


/// An entity's box on screen.
#[derive(Clone, Copy, PartialEq, Eq, Structural, Debug)]
pub struct ScreenBox {
    pub left: i32,
    pub top: i32,
    pub right: i32,
    pub bottom: i32,
}

/// One entity as the game reports it: what the overlay decides on, its box
/// on screen when it has one, and its player name buffer.
pub struct EntityOnScreen {
    pub seen: EntitySeen,
    pub screen_box: Option<ScreenBox>,
    pub name: Vec<u8>,
}

/// What the surface is asked to draw. `orange` marks the aim target; the
/// other parts are drawn in the color of team `team`.
#[derive(Clone, Debug, PartialEq, Eq)]
pub enum DrawCommand {
    Outline { screen_box: ScreenBox, orange: bool, team: i32 },
    Name { screen_box: ScreenBox, text: String, orange: bool, team: i32 },
    Health { screen_box: ScreenBox, entity: i32, horizontal: bool },
    Label { x: i32, y: i32, text: String, color: LabelColor },
}

/// `DrawCommand` with its texts as character sequences.
pub enum CommandView {
    Outline { screen_box: ScreenBox, orange: bool, team: i32 },
    Name { screen_box: ScreenBox, text: Seq<char>, orange: bool, team: i32 },
    Health { screen_box: ScreenBox, entity: i32, horizontal: bool },
    Label { x: int, y: int, text: Seq<char>, color: LabelColor },
}

/// The view of a drawing command.
pub open spec fn command_view(c: DrawCommand) -> CommandView {
    match c {
        DrawCommand::Outline { screen_box, orange, team } => CommandView::Outline { screen_box, orange, team },
        DrawCommand::Name { screen_box, text, orange, team } => CommandView::Name { screen_box, text: text@, orange, team },
        DrawCommand::Health { screen_box, entity, horizontal } => CommandView::Health { screen_box, entity, horizontal },
        DrawCommand::Label { x, y, text, color } => CommandView::Label { x: x as int, y: y as int, text: text@, color },
    }
}

/// The views of a list of drawing commands.
pub open spec fn command_views(cs: Seq<DrawCommand>) -> Seq<CommandView> {
    cs.map_values(|c: DrawCommand| command_view(c))
}

/// The text of a name buffer: its UTF-8 text, or nothing when it is not
/// valid UTF-8.
pub open spec fn utf8_or_empty(b: Seq<u8>) -> Seq<char> {
    if valid_utf8(b) { decode_utf8(b) } else { Seq::empty() }
}

/// The name drawn for an entity: a building's kind, or a player's name.
pub open spec fn entity_name(e: EntityOnScreen) -> Seq<char> {
    match e.seen.class {
        EntityClass::Sentry => seq!['S', 'e', 'n', 't', 'r', 'y', ' ', 'G', 'u', 'n'],
        EntityClass::Dispenser => seq!['D', 'i', 's', 'p', 'e', 'n', 's', 'e', 'r'],
        EntityClass::Teleporter => seq!['T', 'e', 'l', 'e', 'p', 'o', 'r', 't', 'e', 'r'],
        _ => utf8_or_empty(e.name@),
    }
}

/// The labels `ls` placed beside the box `b`, from the top down.
pub open spec fn label_commands(ls: Seq<(Seq<char>, LabelColor)>, b: ScreenBox) -> Seq<CommandView> {
    Seq::new(ls.len(), |j: int| CommandView::Label { x: b.right + 10, y: b.top + 10 * j, text: ls[j].0, color: ls[j].1 })
}

/// What is drawn for an entity with box `b`, given the decision `d`: the
/// outline, the name and the health bar that `d` asks for, then its labels.
pub open spec fn entity_commands(d: EspDrawView, b: ScreenBox, e: EntityOnScreen) -> Seq<CommandView> {
    (if d.boxes { seq![CommandView::Outline { screen_box: b, orange: d.orange, team: e.seen.team }] } else { Seq::empty() })
        + (if d.names {
            seq![CommandView::Name { screen_box: b, text: entity_name(e), orange: d.orange, team: e.seen.team }]
        } else {
            Seq::empty()
        })
        + (if d.health {
            seq![CommandView::Health { screen_box: b, entity: e.seen.index, horizontal: d.horizontal_health }]
        } else {
            Seq::empty()
        })
        + label_commands(d.labels, b)
}

/// What the overlay draws for the entities `es` in order: for each that the
/// decision draws and that has a box on screen, its commands.
pub open spec fn esp_commands(
    c: ESPConfig,
    local_team: i32,
    local_dead: bool,
    target: Option<Target>,
    es: Seq<EntityOnScreen>,
) -> Seq<CommandView>
    decreases es.len(),
{
    if es.len() == 0 {
        Seq::empty()
    } else {
        let e = es.last();
        esp_commands(c, local_team, local_dead, target, es.drop_last()) + match (
            spec_esp_decision(c, local_team, local_dead, target, e.seen),
            e.screen_box,
        ) {
            (Some(d), Some(b)) => entity_commands(d, b, e),
            _ => Seq::empty(),
        }
    }
}

/// An entity gets at most seven labels: the two of the target and the five
/// conditions.
proof fn lemma_label_count(c: ESPConfig, local_team: i32, local_dead: bool, target: Option<Target>, e: EntitySeen)
    ensures
        spec_esp_decision(c, local_team, local_dead, target, e) matches Some(d) ==> d.labels.len() <= 7,
{
    assert(target_labels(c, local_dead, target, e).len() <= 2);
    assert(condition_labels(e).len() <= 5);
}

/// The labels of `e` fit beside its box: the label positions are `i32`s.
pub open spec fn labels_fit(
    c: ESPConfig,
    local_team: i32,
    local_dead: bool,
    target: Option<Target>,
    e: EntityOnScreen,
) -> bool {
    match (spec_esp_decision(c, local_team, local_dead, target, e.seen), e.screen_box) {
        (Some(d), Some(b)) => d.labels.len() > 0 ==> (b.right + 10 <= i32::MAX && b.top + 10 * (d.labels.len() - 1) <= i32::MAX),
        _ => true,
    }
}

fn utf8_or_empty_of(b: &[u8]) -> (res: String)
    ensures
        res@ == utf8_or_empty(b@),
{
    match utf8_text(b) {
        Some(s) => String::from_str(s),
        None => String::new(),
    }
}

fn push_command(out: &mut Vec<DrawCommand>, c: DrawCommand)
    ensures
        command_views(final(out)@) == command_views(old(out)@).push(command_view(c)),
{
    let ghost before = command_views(out@);
    out.push(c);
    assert(command_views(out@) =~= before.push(command_view(c)));
}

fn push_entity_commands(out: &mut Vec<DrawCommand>, d: EspDraw, b: ScreenBox, e: &EntityOnScreen)
    requires
        d.labels@.len() <= 7,
        d.labels@.len() > 0 ==> (b.right + 10 <= i32::MAX && b.top + 10 * (d.labels@.len() - 1) <= i32::MAX),
    ensures
        command_views(final(out)@) == command_views(old(out)@) + entity_commands(draw_view(Some(d))->0, b, *e),
{
    let ghost dv = draw_view(Some(d))->0;
    let ghost start = command_views(out@);
    if d.boxes {
        push_command(out, DrawCommand::Outline { screen_box: b, orange: d.orange, team: e.seen.team });
    }
    let ghost after_box = command_views(out@);
    if d.names {
        let text = match building_name(e.seen.class) {
            Some(n) => String::from_str(n),
            None => utf8_or_empty_of(e.name.as_slice()),
        };
        assert(text@ == entity_name(*e));
        push_command(out, DrawCommand::Name { screen_box: b, text, orange: d.orange, team: e.seen.team });
    }
    let ghost after_name = command_views(out@);
    if d.health {
        push_command(out, DrawCommand::Health { screen_box: b, entity: e.seen.index, horizontal: d.horizontal_health });
    }
    let ghost after_health = command_views(out@);
    let ghost lv = label_views(d.labels@);
    let n = d.labels.len();
    let mut j: usize = 0;
    while j < n
        invariant
            n == d.labels@.len(),
            n <= 7,
            j <= n,
            lv == label_views(d.labels@),
            n > 0 ==> (b.right + 10 <= i32::MAX && b.top + 10 * (n - 1) <= i32::MAX),
            command_views(out@) == after_health + label_commands(lv, b).take(j as int),
        decreases n - j,
    {
        let (x, y) = label_position(b.right, b.top, j);
        let text = d.labels[j].0.clone();
        let color = d.labels[j].1;
        let ghost before = command_views(out@);
        push_command(out, DrawCommand::Label { x, y, text, color });
        assert(label_commands(lv, b).take(j + 1) =~= label_commands(lv, b).take(j as int).push(
            label_commands(lv, b)[j as int],
        ));
        j = j + 1;
    }
    assert(label_commands(lv, b).take(n as int) =~= label_commands(lv, b));
    proof {
        let e1: Seq<CommandView> = if dv.boxes { seq![CommandView::Outline { screen_box: b, orange: dv.orange, team: e.seen.team }] } else { Seq::empty() };
        let e2: Seq<CommandView> = if dv.names {
            seq![CommandView::Name { screen_box: b, text: entity_name(*e), orange: dv.orange, team: e.seen.team }]
        } else {
            Seq::empty()
        };
        let e3: Seq<CommandView> = if dv.health {
            seq![CommandView::Health { screen_box: b, entity: e.seen.index, horizontal: dv.horizontal_health }]
        } else {
            Seq::empty()
        };
        assert(after_box =~= start + e1);
        assert(after_name =~= after_box + e2);
        assert(after_health =~= after_name + e3);
        assert(command_views(out@) =~= start + (e1 + e2 + e3 + label_commands(lv, b)));
    }
}

/// The drawing commands for the entities `entities` seen this frame by a
/// local player of team `local_team`: nothing while the overlay is off; else,
/// for each entity that `esp_decision` draws and that has a box on screen,
/// its outline, name and health bar as asked, then its labels beside the
/// box.
pub fn esp_pass(
    config: &ESPConfig,
    local_team: i32,
    local_dead: bool,
    target: Option<Target>,
    entities: &Vec<EntityOnScreen>,
) -> (res: Vec<DrawCommand>)
    requires
        forall|i: int| 0 <= i < entities@.len() ==> labels_fit(*config, local_team, local_dead, target, #[trigger] entities@[i]),
    ensures
        command_views(res@) == esp_commands(*config, local_team, local_dead, target, entities@),
{
    let mut out: Vec<DrawCommand> = Vec::new();
    let mut i: usize = 0;
    assert(command_views(out@) =~= Seq::<CommandView>::empty());
    while i < entities.len()
        invariant
            i <= entities@.len(),
            forall|k: int| 0 <= k < entities@.len() ==> labels_fit(*config, local_team, local_dead, target, #[trigger] entities@[k]),
            command_views(out@) == esp_commands(*config, local_team, local_dead, target, entities@.take(i as int)),
        decreases entities@.len() - i,
    {
        let e = &entities[i];
        assert(entities@.take(i + 1).drop_last() == entities@.take(i as int));
        assert(entities@.take(i + 1).last() == entities@[i as int]);
        assert(labels_fit(*config, local_team, local_dead, target, entities@[i as int]));
        let ghost before = command_views(out@);
        match esp_decision(config, local_team, local_dead, target, &e.seen) {
            Some(d) => match e.screen_box {
                Some(b) => {
                    proof {
                        lemma_label_count(*config, local_team, local_dead, target, e.seen);
                    }
                    push_entity_commands(&mut out, d, b, e);
                },
                None => {
                    assert(command_views(out@) =~= before + Seq::<CommandView>::empty());
                },
            },
            None => {
                assert(command_views(out@) =~= before + Seq::<CommandView>::empty());
            },
        }
        i = i + 1;
    }
    assert(entities@.take(entities@.len() as int) == entities@);
    out
}


/// Whether the labels of `e` fit beside its box (see `labels_fit`).
pub fn entity_labels_fit(
    config: &ESPConfig,
    local_team: i32,
    local_dead: bool,
    target: Option<Target>,
    e: &EntityOnScreen,
) -> (res: bool)
    ensures
        res == labels_fit(*config, local_team, local_dead, target, *e),
{
    proof {
        lemma_label_count(*config, local_team, local_dead, target, e.seen);
    }
    match (esp_decision(config, local_team, local_dead, target, &e.seen), e.screen_box) {
        (Some(d), Some(b)) => {
            let n = d.labels.len();
            if n == 0 {
                true
            } else {
                (b.right as i64) + 10 <= i32::MAX as i64 && (b.top as i64) + 10 * ((n - 1) as i64) <= i32::MAX as i64
            }
        },
        _ => true,
    }
}


proof fn lemma_concat_contains<A>(a: Seq<A>, b: Seq<A>, x: A)
    ensures
        (a + b).contains(x) <==> (a.contains(x) || b.contains(x)),
{
    if (a + b).contains(x) {
        let k = choose|k: int| 0 <= k < (a + b).len() && (a + b)[k] == x;
        if k < a.len() {
            assert(a[k] == x);
        } else {
            assert(b[k - a.len()] == x);
        }
    }
    if a.contains(x) {
        let k = choose|k: int| 0 <= k < a.len() && a[k] == x;
        assert((a + b)[k] == x);
    }
    if b.contains(x) {
        let k = choose|k: int| 0 <= k < b.len() && b[k] == x;
        assert((a + b)[k + a.len()] == x);
    }
}

proof fn lemma_one_contains<A>(y: A, x: A)
    ensures
        seq![y].contains(x) <==> x == y,
{
    if x == y {
        assert(seq![y][0] == x);
    }
}

pub open spec fn disguised_label() -> (Seq<char>, LabelColor) {
    (seq!['D', 'I', 'S', 'G', 'U', 'I', 'S', 'E', 'D'], LabelColor::White)
}

pub open spec fn taunting_label() -> (Seq<char>, LabelColor) {
    (seq!['T', 'A', 'U', 'N', 'T', 'I', 'N', 'G'], LabelColor::White)
}

pub open spec fn zoomed_label() -> (Seq<char>, LabelColor) {
    (seq!['Z', 'O', 'O', 'M', 'E', 'D'], LabelColor::White)
}

pub open spec fn invisible_label() -> (Seq<char>, LabelColor) {
    (seq!['I', 'N', 'V', 'I', 'S', 'I', 'B', 'L', 'E'], LabelColor::White)
}

pub open spec fn milked_label() -> (Seq<char>, LabelColor) {
    (seq!['M', 'I', 'L', 'K', 'E', 'D'], LabelColor::White)
}

pub open spec fn target_label() -> (Seq<char>, LabelColor) {
    (seq!['T', 'A', 'R', 'G', 'E', 'T'], LabelColor::White)
}

pub open spec fn headshot_label() -> (Seq<char>, LabelColor) {
    (seq!['H', 'S'], LabelColor::Red)
}

proof fn lemma_white_if_contains(on: bool, t: Seq<char>, x: (Seq<char>, LabelColor))
    ensures
        white_if(on, t).contains(x) <==> (on && x == (t, LabelColor::White)),
{
    if on {
        lemma_one_contains((t, LabelColor::White), x);
    }
}

proof fn lemma_condition_contains(e: EntitySeen, x: (Seq<char>, LabelColor))
    ensures
        condition_labels(e).contains(x) <==> (
            (e.disguised && x == disguised_label()) || (e.taunting && x == taunting_label())
            || (e.zoomed && x == zoomed_label()) || (e.invisible && x == invisible_label())
            || (e.milked && x == milked_label())),
{
    let w1 = white_if(e.disguised, disguised_label().0);
    let w2 = white_if(e.taunting, taunting_label().0);
    let w3 = white_if(e.zoomed, zoomed_label().0);
    let w4 = white_if(e.invisible, invisible_label().0);
    let w5 = white_if(e.milked, milked_label().0);
    assert(condition_labels(e) == w1 + w2 + w3 + w4 + w5);
    lemma_concat_contains(w1 + w2 + w3 + w4, w5, x);
    lemma_concat_contains(w1 + w2 + w3, w4, x);
    lemma_concat_contains(w1 + w2, w3, x);
    lemma_concat_contains(w1, w2, x);
    lemma_white_if_contains(e.disguised, disguised_label().0, x);
    lemma_white_if_contains(e.taunting, taunting_label().0, x);
    lemma_white_if_contains(e.zoomed, zoomed_label().0, x);
    lemma_white_if_contains(e.invisible, invisible_label().0, x);
    lemma_white_if_contains(e.milked, milked_label().0, x);
}

proof fn lemma_target_contains(c: ESPConfig, local_dead: bool, target: Option<Target>, e: EntitySeen, x: (Seq<char>, LabelColor))
    ensures
        target_labels(c, local_dead, target, e).contains(x) <==> (marked_target(c, local_dead, target, e) && (
            x == target_label() || (target->0.should_headshot && x == headshot_label()))),
{
    let marked = marked_target(c, local_dead, target, e);
    if marked {
        let hl: Seq<(Seq<char>, LabelColor)> = if target->0.should_headshot { seq![headshot_label()] } else { Seq::empty() };
        assert(target_labels(c, local_dead, target, e) == seq![target_label()] + hl);
        lemma_concat_contains(seq![target_label()], hl, x);
        lemma_one_contains(target_label(), x);
        lemma_one_contains(headshot_label(), x);
    }
}

proof fn lemma_label_in(c: ESPConfig, local_team: i32, local_dead: bool, target: Option<Target>, e: EntitySeen, x: (Seq<char>, LabelColor))
    requires
        spec_esp_decision(c, local_team, local_dead, target, e) is Some,
    ensures
        ({
            let group = if e.team == local_team { c.player_friendly } else { c.player_enemy };
            spec_esp_decision(c, local_team, local_dead, target, e)->0.labels.contains(x) <==> (
                target_labels(c, local_dead, target, e).contains(x)
                || (e.class == EntityClass::Player && group.conds && condition_labels(e).contains(x)))
        }),
{
    let group = if e.team == local_team { c.player_friendly } else { c.player_enemy };
    let head = target_labels(c, local_dead, target, e);
    let cl: Seq<(Seq<char>, LabelColor)> = if e.class == EntityClass::Player && group.conds { condition_labels(e) } else { Seq::empty() };
    assert(spec_esp_decision(c, local_team, local_dead, target, e)->0.labels =~= head + cl);
    lemma_concat_contains(head, cl, x);
}

/// Which of the labels a drawn entity gets: `TARGET` (white) exactly when it
/// is the marked aim target, `HS` (red) exactly when it is the marked target
/// and to be hit in the head; and, for a player whose group shows
/// conditions, `DISGUISED`, `TAUNTING`, `ZOOMED`, `INVISIBLE` and `MILKED`
/// (white) exactly when the player is in that condition; other entities get
/// none of those five.
pub proof fn lemma_labels_law(c: ESPConfig, local_team: i32, local_dead: bool, target: Option<Target>, e: EntitySeen)
    requires
        spec_esp_decision(c, local_team, local_dead, target, e) is Some,
    ensures
        ({
            let ls = spec_esp_decision(c, local_team, local_dead, target, e)->0.labels;
            let marked = c.aimbot_target && !local_dead && target is Some && target->0.target_index == e.index;
            let group = if e.team == local_team { c.player_friendly } else { c.player_enemy };
            let conds = e.class == EntityClass::Player && group.conds;
            &&& ls.contains(target_label()) <==> marked
            &&& ls.contains(headshot_label()) <==> (marked && target->0.should_headshot)
            &&& ls.contains(disguised_label()) <==> (conds && e.disguised)
            &&& ls.contains(taunting_label()) <==> (conds && e.taunting)
            &&& ls.contains(zoomed_label()) <==> (conds && e.zoomed)
            &&& ls.contains(invisible_label()) <==> (conds && e.invisible)
            &&& ls.contains(milked_label()) <==> (conds && e.milked)
        }),
{
    let tg = target_label().0;
    let d = disguised_label().0;
    let t = taunting_label().0;
    let z = zoomed_label().0;
    let i = invisible_label().0;
    let m = milked_label().0;
    assert(tg[2] != t[2]);
    assert(tg[0] != d[0] && tg[0] != z[0] && tg[0] != i[0] && tg[0] != m[0]);
    assert(d[0] != t[0] && d[0] != z[0] && d[0] != i[0] && d[0] != m[0]);
    assert(t[0] != z[0] && t[0] != i[0] && t[0] != m[0]);
    assert(z[0] != i[0] && z[0] != m[0] && i[0] != m[0]);
    lemma_label_in(c, local_team, local_dead, target, e, target_label());
    lemma_target_contains(c, local_dead, target, e, target_label());
    lemma_condition_contains(e, target_label());
    lemma_label_in(c, local_team, local_dead, target, e, headshot_label());
    lemma_target_contains(c, local_dead, target, e, headshot_label());
    lemma_condition_contains(e, headshot_label());
    lemma_label_in(c, local_team, local_dead, target, e, disguised_label());
    lemma_target_contains(c, local_dead, target, e, disguised_label());
    lemma_condition_contains(e, disguised_label());
    lemma_label_in(c, local_team, local_dead, target, e, taunting_label());
    lemma_target_contains(c, local_dead, target, e, taunting_label());
    lemma_condition_contains(e, taunting_label());
    lemma_label_in(c, local_team, local_dead, target, e, zoomed_label());
    lemma_target_contains(c, local_dead, target, e, zoomed_label());
    lemma_condition_contains(e, zoomed_label());
    lemma_label_in(c, local_team, local_dead, target, e, invisible_label());
    lemma_target_contains(c, local_dead, target, e, invisible_label());
    lemma_condition_contains(e, invisible_label());
    lemma_label_in(c, local_team, local_dead, target, e, milked_label());
    lemma_target_contains(c, local_dead, target, e, milked_label());
    lemma_condition_contains(e, milked_label());
}


/// When an entity is drawn, and how: nothing is drawn while the overlay is
/// off, for a dormant entity, for the local player, for an entity of another
/// kind, for a dead player, or for a friendly entity whose group (friendly
/// players or friendly buildings) draws nothing at all. Otherwise the box,
/// name and health bar are drawn exactly as the entity's group (friendly or
/// enemy, players or buildings) asks; the box and name are orange exactly for
/// the marked aim target; and the health bar lies under the box exactly for
/// buildings.
pub proof fn lemma_draw_law(c: ESPConfig, local_team: i32, local_dead: bool, target: Option<Target>, e: EntitySeen)
    ensures
        ({
            let r = spec_esp_decision(c, local_team, local_dead, target, e);
            let friendly = e.team == local_team;
            let player = e.class == EntityClass::Player;
            let group = if player {
                if friendly { c.player_friendly } else { c.player_enemy }
            } else {
                if friendly { c.building_friendly } else { c.building_enemy }
            };
            let friendly_any = if player {
                c.player_friendly.boxes || c.player_friendly.names || c.player_friendly.health || c.player_friendly.conds
            } else {
                c.building_friendly.boxes || c.building_friendly.names || c.building_friendly.health || c.building_friendly.conds
            };
            &&& r is None <==> (!c.master || e.dormant || e.is_local || e.class == EntityClass::Other
                || (player && e.dead) || (friendly && !friendly_any))
            &&& r is Some ==> {
                let d = r->0;
                &&& d.boxes == group.boxes
                &&& d.names == group.names
                &&& d.health == group.health
                &&& d.orange == (c.aimbot_target && !local_dead && target is Some && target->0.target_index == e.index)
                &&& d.horizontal_health == !player
            }
        }),
{
}


/// While the overlay is switched off nothing at all is drawn.
pub proof fn lemma_overlay_off_law(c: ESPConfig, local_team: i32, local_dead: bool, target: Option<Target>, es: Seq<EntityOnScreen>)
    requires
        !c.master,
    ensures
        esp_commands(c, local_team, local_dead, target, es) == Seq::<CommandView>::empty(),
    decreases es.len(),
{
    if es.len() > 0 {
        lemma_overlay_off_law(c, local_team, local_dead, target, es.drop_last());
        assert(esp_commands(c, local_team, local_dead, target, es) =~= Seq::<CommandView>::empty());
    }
}


/// What is drawn for an entity: first its outline (if asked, orange for the
/// target, else in its team's color), its name (if asked: the building's
/// kind, or the player's name) and its health bar (if asked), in that order;
/// then its labels, from the top down, the label at position `j` ten pixels
/// right of the box and `10 * j` pixels below its top.
pub proof fn lemma_entity_commands_law(d: EspDrawView, b: ScreenBox, e: EntityOnScreen)
    ensures
        ({
            let cs = entity_commands(d, b, e);
            let n = (if d.boxes { 1int } else { 0 }) + (if d.names { 1int } else { 0 }) + (if d.health { 1int } else { 0 });
            &&& cs.len() == n + d.labels.len()
            &&& d.boxes ==> cs[0] == CommandView::Outline { screen_box: b, orange: d.orange, team: e.seen.team }
            &&& d.names ==> cs[if d.boxes { 1int } else { 0 }] == CommandView::Name {
                screen_box: b, text: entity_name(e), orange: d.orange, team: e.seen.team }
            &&& d.health ==> cs[n - 1] == CommandView::Health { screen_box: b, entity: e.seen.index, horizontal: d.horizontal_health }
            &&& forall|j: int| 0 <= j < d.labels.len() ==> #[trigger] cs[n + j] == CommandView::Label {
                x: b.right + 10, y: b.top + 10 * j, text: d.labels[j].0, color: d.labels[j].1 }
        }),
{
    let cs = entity_commands(d, b, e);
    let n = (if d.boxes { 1int } else { 0 }) + (if d.names { 1int } else { 0 }) + (if d.health { 1int } else { 0 });
    let lc = label_commands(d.labels, b);
    assert forall|j: int| 0 <= j < d.labels.len() implies #[trigger] cs[n + j] == CommandView::Label {
        x: b.right + 10, y: b.top + 10 * j, text: d.labels[j].0, color: d.labels[j].1 } by {
        assert(cs[n + j] == lc[j]);
    }
}

} // verus!
