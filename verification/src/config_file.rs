//! The saved text of whole configurations. A color's text is the decimal
//! text of its floating-point channels, which the library does not compute:
//! it is handed in, one text per color, in the order `config_colors` lists
//! the colors. Everything else (which fields a record has, their order and
//! nesting) is written here.
use vstd::prelude::*;

use crate::config::{
    default_building, default_colors, default_cond, default_conds, default_config, default_esp,
    default_esp_colors, BuildingColorConfig, BuildingsColorsConfig, ColorF, ColorsConfig,
    CondDisplayConfig, CondsDisplayConfig, Config, ESPConfig, EntityESPConfig, EspColorConfig,
    AimbotConfig, KeyConfig,
};
use crate::config_text::{
    aimbot_parse, aimbot_text, bool_from_text, bool_text, bool_to_text, entity_esp_parse,
    entity_esp_text, key_config_parse, key_config_text, lemma_bool_round_trip,
    lemma_flat_round_trip, parse_bool_spec, FieldError,
};
use crate::record::{
    assignment_views, assignments, expected_assignments, format_record, good_fields, good_value,
    lemma_assignments_bounds, pair_views, parse_record, record_text,
};
use crate::text::{lemma_position_is, lines};

verus! {

/// The character sequences of a list of strings.
pub open spec fn texts(v: Seq<String>) -> Seq<Seq<char>> {
    v.map_values(|s: String| s@)
}

fn push_field(fields: &mut Vec<(String, String)>, name: &str, value: String)
    ensures
        pair_views(final(fields)@) == pair_views(old(fields)@).push((name@, value@)),
{
    let ghost before = pair_views(fields@);
    fields.push((String::from_str(name), value));
    assert(pair_views(fields@) =~= before.push((name@, value@)));
}

/// The colors of a condition display, in the order their texts are handed in.
pub open spec fn cond_colors(c: CondDisplayConfig) -> Seq<ColorF> {
    seq![c.color]
}

/// The text of a condition display, its color's text being `ct[at]`.
pub open spec fn cond_text(c: CondDisplayConfig, ct: Seq<Seq<char>>, at: int) -> Seq<char> {
    record_text(seq![("enabled"@, bool_text(c.enabled)), ("color"@, ct[at])])
}

fn cond_to_text(c: &CondDisplayConfig, ct: &[String], at: usize) -> (res: String)
    requires
        at < ct@.len(),
    ensures
        res@ == cond_text(*c, texts(ct@), at as int),
{
    let mut f: Vec<(String, String)> = Vec::new();
    push_field(&mut f, "enabled", bool_to_text(c.enabled));
    push_field(&mut f, "color", ct[at].clone());
    assert(pair_views(f@) =~= seq![("enabled"@, bool_text(c.enabled)), ("color"@, texts(ct@)[at as int])]);
    format_record(&f)
}

/// The colors of the condition displays, in field order.
pub open spec fn conds_colors(c: CondsDisplayConfig) -> Seq<ColorF> {
    c.colors()
}

/// The text of the condition displays, their colors' texts being
/// `ct[at .. at + 7]`.
pub open spec fn conds_text(c: CondsDisplayConfig, ct: Seq<Seq<char>>, at: int) -> Seq<char> {
    record_text(
        seq![
            ("disguised"@, cond_text(c.disguised, ct, at)),
            ("taunting"@, cond_text(c.taunting, ct, at + 1)),
            ("zoomed"@, cond_text(c.zoomed, ct, at + 2)),
            ("invisible"@, cond_text(c.invisible, ct, at + 3)),
            ("milked"@, cond_text(c.milked, ct, at + 4)),
            ("mg"@, cond_text(c.mg, ct, at + 5)),
            ("butter"@, cond_text(c.butter, ct, at + 6)),
        ],
    )
}

fn conds_to_text(c: &CondsDisplayConfig, ct: &[String], at: usize) -> (res: String)
    requires
        at + 7 <= ct@.len(),
    ensures
        res@ == conds_text(*c, texts(ct@), at as int),
{
    let ghost t = texts(ct@);
    let n = ct.len();
    assert(at + 1 <= n);
    let mut f: Vec<(String, String)> = Vec::new();
    push_field(&mut f, "disguised", cond_to_text(&c.disguised, ct, at));
    push_field(&mut f, "taunting", cond_to_text(&c.taunting, ct, at + 1));
    push_field(&mut f, "zoomed", cond_to_text(&c.zoomed, ct, at + 2));
    push_field(&mut f, "invisible", cond_to_text(&c.invisible, ct, at + 3));
    push_field(&mut f, "milked", cond_to_text(&c.milked, ct, at + 4));
    push_field(&mut f, "mg", cond_to_text(&c.mg, ct, at + 5));
    push_field(&mut f, "butter", cond_to_text(&c.butter, ct, at + 6));
    assert(pair_views(f@) =~= seq![
        ("disguised"@, cond_text(c.disguised, t, at as int)),
        ("taunting"@, cond_text(c.taunting, t, at + 1)),
        ("zoomed"@, cond_text(c.zoomed, t, at + 2)),
        ("invisible"@, cond_text(c.invisible, t, at + 3)),
        ("milked"@, cond_text(c.milked, t, at + 4)),
        ("mg"@, cond_text(c.mg, t, at + 5)),
        ("butter"@, cond_text(c.butter, t, at + 6)),
    ]);
    format_record(&f)
}

/// The text of box or name colors, the colors' texts being `ct[at]` (enemy)
/// and `ct[at + 1]` (friendly).
pub open spec fn esp_colors_text(c: EspColorConfig, ct: Seq<Seq<char>>, at: int) -> Seq<char> {
    record_text(
        seq![
            ("use_team_colors"@, bool_text(c.use_team_colors)),
            ("enemy"@, ct[at]),
            ("friendly"@, ct[at + 1]),
        ],
    )
}

fn esp_colors_to_text(c: &EspColorConfig, ct: &[String], at: usize) -> (res: String)
    requires
        at + 2 <= ct@.len(),
    ensures
        res@ == esp_colors_text(*c, texts(ct@), at as int),
{
    let ghost t = texts(ct@);
    let n = ct.len();
    assert(at + 1 <= n);
    let mut f: Vec<(String, String)> = Vec::new();
    push_field(&mut f, "use_team_colors", bool_to_text(c.use_team_colors));
    push_field(&mut f, "enemy", ct[at].clone());
    push_field(&mut f, "friendly", ct[at + 1].clone());
    assert(pair_views(f@) =~= seq![
        ("use_team_colors"@, bool_text(c.use_team_colors)),
        ("enemy"@, t[at as int]),
        ("friendly"@, t[at + 1]),
    ]);
    format_record(&f)
}

/// The text of a building's colors, the colors' texts being `ct[at]`
/// (enemy) and `ct[at + 1]` (friendly).
pub open spec fn building_colors_text(c: BuildingColorConfig, ct: Seq<Seq<char>>, at: int) -> Seq<char> {
    record_text(seq![("enemy"@, ct[at]), ("friendly"@, ct[at + 1])])
}

fn building_colors_to_text(c: &BuildingColorConfig, ct: &[String], at: usize) -> (res: String)
    requires
        at + 2 <= ct@.len(),
    ensures
        res@ == building_colors_text(*c, texts(ct@), at as int),
{
    let ghost t = texts(ct@);
    let n = ct.len();
    assert(at + 1 <= n);
    let mut f: Vec<(String, String)> = Vec::new();
    push_field(&mut f, "enemy", ct[at].clone());
    push_field(&mut f, "friendly", ct[at + 1].clone());
    assert(pair_views(f@) =~= seq![("enemy"@, t[at as int]), ("friendly"@, t[at + 1])]);
    format_record(&f)
}

/// The text of the buildings' colors, the colors' texts being
/// `ct[at .. at + 6]`.
pub open spec fn buildings_text(c: BuildingsColorsConfig, ct: Seq<Seq<char>>, at: int) -> Seq<char> {
    record_text(
        seq![
            ("use_team_colors"@, bool_text(c.use_team_colors)),
            ("sentry"@, building_colors_text(c.sentry, ct, at)),
            ("dispenser"@, building_colors_text(c.dispenser, ct, at + 2)),
            ("teleporter"@, building_colors_text(c.teleporter, ct, at + 4)),
        ],
    )
}

fn buildings_to_text(c: &BuildingsColorsConfig, ct: &[String], at: usize) -> (res: String)
    requires
        at + 6 <= ct@.len(),
    ensures
        res@ == buildings_text(*c, texts(ct@), at as int),
{
    let ghost t = texts(ct@);
    let n = ct.len();
    assert(at + 1 <= n);
    let mut f: Vec<(String, String)> = Vec::new();
    push_field(&mut f, "use_team_colors", bool_to_text(c.use_team_colors));
    push_field(&mut f, "sentry", building_colors_to_text(&c.sentry, ct, at));
    push_field(&mut f, "dispenser", building_colors_to_text(&c.dispenser, ct, at + 2));
    push_field(&mut f, "teleporter", building_colors_to_text(&c.teleporter, ct, at + 4));
    assert(pair_views(f@) =~= seq![
        ("use_team_colors"@, bool_text(c.use_team_colors)),
        ("sentry"@, building_colors_text(c.sentry, t, at as int)),
        ("dispenser"@, building_colors_text(c.dispenser, t, at + 2)),
        ("teleporter"@, building_colors_text(c.teleporter, t, at + 4)),
    ]);
    format_record(&f)
}

/// The text of the colors section, the colors' texts being
/// `ct[at .. at + 10]`.
pub open spec fn colors_text(c: ColorsConfig, ct: Seq<Seq<char>>, at: int) -> Seq<char> {
    record_text(
        seq![
            ("boxes"@, esp_colors_text(c.boxes, ct, at)),
            ("names"@, esp_colors_text(c.names, ct, at + 2)),
            ("buildings"@, buildings_text(c.buildings, ct, at + 4)),
        ],
    )
}

fn colors_to_text(c: &ColorsConfig, ct: &[String], at: usize) -> (res: String)
    requires
        at + 10 <= ct@.len(),
    ensures
        res@ == colors_text(*c, texts(ct@), at as int),
{
    let ghost t = texts(ct@);
    let n = ct.len();
    assert(at + 1 <= n);
    let mut f: Vec<(String, String)> = Vec::new();
    push_field(&mut f, "boxes", esp_colors_to_text(&c.boxes, ct, at));
    push_field(&mut f, "names", esp_colors_to_text(&c.names, ct, at + 2));
    push_field(&mut f, "buildings", buildings_to_text(&c.buildings, ct, at + 4));
    assert(pair_views(f@) =~= seq![
        ("boxes"@, esp_colors_text(c.boxes, t, at as int)),
        ("names"@, esp_colors_text(c.names, t, at + 2)),
        ("buildings"@, buildings_text(c.buildings, t, at + 4)),
    ]);
    format_record(&f)
}

/// The text of the drawing settings, the condition colors' texts being
/// `ct[at .. at + 7]`.
pub open spec fn esp_text(c: ESPConfig, ct: Seq<Seq<char>>, at: int) -> Seq<char> {
    record_text(
        seq![
            ("master"@, bool_text(c.master)),
            ("player_enemy"@, entity_esp_text(c.player_enemy)),
            ("player_friendly"@, entity_esp_text(c.player_friendly)),
            ("building_enemy"@, entity_esp_text(c.building_enemy)),
            ("building_friendly"@, entity_esp_text(c.building_friendly)),
            ("aimbot_target"@, bool_text(c.aimbot_target)),
            ("conds"@, conds_text(c.conds, ct, at)),
        ],
    )
}

fn esp_to_text(c: &ESPConfig, ct: &[String], at: usize) -> (res: String)
    requires
        at + 7 <= ct@.len(),
    ensures
        res@ == esp_text(*c, texts(ct@), at as int),
{
    let ghost t = texts(ct@);
    let n = ct.len();
    assert(at + 1 <= n);
    let mut f: Vec<(String, String)> = Vec::new();
    push_field(&mut f, "master", bool_to_text(c.master));
    push_field(&mut f, "player_enemy", c.player_enemy.to_string());
    push_field(&mut f, "player_friendly", c.player_friendly.to_string());
    push_field(&mut f, "building_enemy", c.building_enemy.to_string());
    push_field(&mut f, "building_friendly", c.building_friendly.to_string());
    push_field(&mut f, "aimbot_target", bool_to_text(c.aimbot_target));
    push_field(&mut f, "conds", conds_to_text(&c.conds, ct, at));
    assert(pair_views(f@) =~= seq![
        ("master"@, bool_text(c.master)),
        ("player_enemy"@, entity_esp_text(c.player_enemy)),
        ("player_friendly"@, entity_esp_text(c.player_friendly)),
        ("building_enemy"@, entity_esp_text(c.building_enemy)),
        ("building_friendly"@, entity_esp_text(c.building_friendly)),
        ("aimbot_target"@, bool_text(c.aimbot_target)),
        ("conds"@, conds_text(c.conds, t, at as int)),
    ]);
    format_record(&f)
}

/// The colors of a configuration, in the order their texts are handed in:
/// the seven condition colors, then the box, name and building colors.
pub open spec fn config_color_list(c: Config) -> Seq<ColorF> {
    c.esp.conds.colors() + seq![
        c.colors.boxes.enemy,
        c.colors.boxes.friendly,
        c.colors.names.enemy,
        c.colors.names.friendly,
        c.colors.buildings.sentry.enemy,
        c.colors.buildings.sentry.friendly,
        c.colors.buildings.dispenser.enemy,
        c.colors.buildings.dispenser.friendly,
        c.colors.buildings.teleporter.enemy,
        c.colors.buildings.teleporter.friendly,
    ]
}

/// The colors of `c`, in the order their texts are handed to `to_text`.
pub fn config_colors(c: &Config) -> (res: Vec<ColorF>)
    ensures
        res@ == config_color_list(*c),
{
    let k = &c.esp.conds;
    let b = &c.colors.buildings;
    let mut v: Vec<ColorF> = Vec::new();
    v.push(k.disguised.color);
    v.push(k.taunting.color);
    v.push(k.zoomed.color);
    v.push(k.invisible.color);
    v.push(k.milked.color);
    v.push(k.mg.color);
    v.push(k.butter.color);
    v.push(c.colors.boxes.enemy);
    v.push(c.colors.boxes.friendly);
    v.push(c.colors.names.enemy);
    v.push(c.colors.names.friendly);
    v.push(b.sentry.enemy);
    v.push(b.sentry.friendly);
    v.push(b.dispenser.enemy);
    v.push(b.dispenser.friendly);
    v.push(b.teleporter.enemy);
    v.push(b.teleporter.friendly);
    assert(v@ =~= config_color_list(*c));
    v
}

/// The saved text of a configuration, `ct` being the texts of its colors in
/// the order of `config_color_list`.
pub open spec fn config_text(c: Config, ct: Seq<Seq<char>>) -> Seq<char> {
    record_text(
        seq![
            ("bunnyhop"@, bool_text(c.bunnyhop)),
            ("esp"@, esp_text(c.esp, ct, 0)),
            ("aimbot"@, aimbot_text(c.aimbot)),
            ("thirdperson"@, key_config_text(c.thirdperson)),
            ("spectator_list"@, bool_text(c.spectator_list)),
            ("colors"@, colors_text(c.colors, ct, 7)),
        ],
    )
}

impl Config {
    /// The saved text of the configuration; `color_texts` holds the texts of
    /// its colors, in the order `config_colors` lists them.
    pub fn to_text(&self, color_texts: &Vec<String>) -> (res: String)
        requires
            color_texts@.len() == 17,
        ensures
            res@ == config_text(*self, texts(color_texts@)),
    {
        let ct = color_texts.as_slice();
        let ghost t = texts(color_texts@);
        let mut f: Vec<(String, String)> = Vec::new();
        push_field(&mut f, "bunnyhop", bool_to_text(self.bunnyhop));
        push_field(&mut f, "esp", esp_to_text(&self.esp, ct, 0));
        push_field(&mut f, "aimbot", self.aimbot.to_string());
        push_field(&mut f, "thirdperson", self.thirdperson.to_string());
        push_field(&mut f, "spectator_list", bool_to_text(self.spectator_list));
        push_field(&mut f, "colors", colors_to_text(&self.colors, ct, 7));
        assert(pair_views(f@) =~= seq![
            ("bunnyhop"@, bool_text(self.bunnyhop)),
            ("esp"@, esp_text(self.esp, t, 0)),
            ("aimbot"@, aimbot_text(self.aimbot)),
            ("thirdperson"@, key_config_text(self.thirdperson)),
            ("spectator_list"@, bool_text(self.spectator_list)),
            ("colors"@, colors_text(self.colors, t, 7)),
        ]);
        format_record(&f)
    }
}

/// Color texts found while reading, each with the position of its color in
/// `config_color_list`.
pub type ColorTexts = Seq<(int, Seq<char>)>;

/// The assignments `asg` applied in order to `st` by `apply`; the first that
/// does not read is the error.
pub open spec fn fold_fields<S>(
    st: S,
    asg: Seq<(int, Seq<char>)>,
    apply: spec_fn(S, (int, Seq<char>)) -> Option<S>,
) -> Result<S, (int, Seq<char>)>
    decreases asg.len(),
{
    if asg.len() == 0 {
        Ok(st)
    } else {
        match apply(st, asg[0]) {
            Some(s2) => fold_fields(s2, asg.drop_first(), apply),
            None => Err(asg[0]),
        }
    }
}

fn append_texts(dst: &mut Vec<(usize, String)>, src: Vec<(usize, String)>)
    ensures
        assignment_views(final(dst)@) == assignment_views(old(dst)@) + assignment_views(src@),
{
    let mut i: usize = 0;
    while i < src.len()
        invariant
            i <= src@.len(),
            assignment_views(dst@) == assignment_views(old(dst)@) + assignment_views(src@).take(i as int),
        decreases src@.len() - i,
    {
        let ghost before = assignment_views(dst@);
        dst.push((src[i].0, src[i].1.clone()));
        assert(assignment_views(dst@) =~= before.push((src@[i as int].0 as int, src@[i as int].1@)));
        assert(assignment_views(src@).take(i + 1) =~= assignment_views(src@).take(i as int).push(
            (src@[i as int].0 as int, src@[i as int].1@),
        ));
        i = i + 1;
    }
    assert(assignment_views(src@).take(src@.len() as int) =~= assignment_views(src@));
}

/// The field names of a condition display.
pub open spec fn cond_names() -> Seq<Seq<char>> {
    seq!["enabled"@, "color"@]
}

/// A condition display with one field read; its color, at position `at`,
/// is kept as text.
pub open spec fn cond_apply(at: int) -> spec_fn((CondDisplayConfig, ColorTexts), (int, Seq<char>)) -> Option<(CondDisplayConfig, ColorTexts)> {
    |st: (CondDisplayConfig, ColorTexts), a: (int, Seq<char>)|
        if a.0 == 0 {
            match parse_bool_spec(a.1) {
                Some(b) => Some((CondDisplayConfig { enabled: b, ..st.0 }, st.1)),
                None => None,
            }
        } else {
            Some((st.0, st.1.push((at, a.1))))
        }
}

/// A condition display read from `s`, with the texts of its color.
pub open spec fn cond_parse(s: Seq<char>, at: int) -> Result<(CondDisplayConfig, ColorTexts), (int, Seq<char>)> {
    fold_fields((default_cond(), Seq::empty()), assignments(lines(s), cond_names()), cond_apply(at))
}

fn cond_from_text(s: &str, at: usize) -> (res: Result<(CondDisplayConfig, Vec<(usize, String)>), FieldError>)
    requires
        at + 1 <= 17,
    ensures
        match res {
            Ok((v, cs)) => cond_parse(s@, at as int) == Ok::<_, (int, Seq<char>)>((v, assignment_views(cs@))),
            Err(e) => cond_parse(s@, at as int) is Err
                && e.field@ == cond_names()[cond_parse(s@, at as int)->Err_0.0]
                && e.text@ == cond_parse(s@, at as int)->Err_0.1,
        },
{
    let mut names: Vec<String> = Vec::new();
    names.push(String::from_str("enabled"));
    names.push(String::from_str("color"));
    assert(texts(names@) =~= cond_names());
    let asg = parse_record(s, &names);
    let ghost av = assignment_views(asg@);
    proof {
        lemma_assignments_bounds(lines(s@), cond_names());
    }
    let mut v = CondDisplayConfig::default();
    let mut cs: Vec<(usize, String)> = Vec::new();
    let mut i: usize = 0;
    assert(av.skip(0) == av);
    assert(assignment_views(cs@) =~= Seq::<(int, Seq<char>)>::empty());
    while i < asg.len()
        invariant
            i <= asg@.len(),
            at + 1 <= 17,
            av == assignment_views(asg@),
            av == assignments(lines(s@), cond_names()),
            texts(names@) == cond_names(),
            names@.len() == 2,
            cond_parse(s@, at as int) == fold_fields((v, assignment_views(cs@)), av.skip(i as int), cond_apply(at as int)),
            forall|j: int| 0 <= j < av.len() ==> 0 <= (#[trigger] av[j]).0 < 2,
        decreases asg@.len() - i,
    {
        let idx = asg[i].0;
        assert(av.skip(i as int)[0] == av[i as int]);
        assert(av.skip(i as int).drop_first() == av.skip(i + 1));
        if idx == 0 {
            match bool_from_text(asg[i].1.as_str()) {
                Some(b) => v.enabled = b,
                None => return Err(FieldError { field: names[0].clone(), text: asg[i].1.clone() }),
            }
        } else {
            let ghost before = assignment_views(cs@);
            cs.push((at, asg[i].1.clone()));
            assert(assignment_views(cs@) =~= before.push((at as int, av[i as int].1)));
        }
        i = i + 1;
    }
    Ok((v, cs))
}

/// The field names of `CondsDisplayConfig`.
pub open spec fn conds_names() -> Seq<Seq<char>> {
    seq!["disguised"@, "taunting"@, "zoomed"@, "invisible"@, "milked"@, "mg"@, "butter"@]
}

/// `CondsDisplayConfig` with one field read; colors, from position `at` on, are kept
/// as text.
pub open spec fn conds_apply(at: int) -> spec_fn((CondsDisplayConfig, ColorTexts), (int, Seq<char>)) -> Option<(CondsDisplayConfig, ColorTexts)> {
    |st: (CondsDisplayConfig, ColorTexts), a: (int, Seq<char>)|
        if a.0 == 0 {
            match cond_parse(a.1, at + 0) {
                Ok(r) => Some((CondsDisplayConfig { disguised: r.0, ..st.0 }, st.1 + r.1)),
                Err(_) => None,
            }
        } else if a.0 == 1 {
            match cond_parse(a.1, at + 1) {
                Ok(r) => Some((CondsDisplayConfig { taunting: r.0, ..st.0 }, st.1 + r.1)),
                Err(_) => None,
            }
        } else if a.0 == 2 {
            match cond_parse(a.1, at + 2) {
                Ok(r) => Some((CondsDisplayConfig { zoomed: r.0, ..st.0 }, st.1 + r.1)),
                Err(_) => None,
            }
        } else if a.0 == 3 {
            match cond_parse(a.1, at + 3) {
                Ok(r) => Some((CondsDisplayConfig { invisible: r.0, ..st.0 }, st.1 + r.1)),
                Err(_) => None,
            }
        } else if a.0 == 4 {
            match cond_parse(a.1, at + 4) {
                Ok(r) => Some((CondsDisplayConfig { milked: r.0, ..st.0 }, st.1 + r.1)),
                Err(_) => None,
            }
        } else if a.0 == 5 {
            match cond_parse(a.1, at + 5) {
                Ok(r) => Some((CondsDisplayConfig { mg: r.0, ..st.0 }, st.1 + r.1)),
                Err(_) => None,
            }
        } else {
            match cond_parse(a.1, at + 6) {
                Ok(r) => Some((CondsDisplayConfig { butter: r.0, ..st.0 }, st.1 + r.1)),
                Err(_) => None,
            }
        }
}

/// `CondsDisplayConfig` read from `s`, with the texts of its colors.
pub open spec fn conds_parse(s: Seq<char>, at: int) -> Result<(CondsDisplayConfig, ColorTexts), (int, Seq<char>)> {
    fold_fields((default_conds(), Seq::empty()), assignments(lines(s), conds_names()), conds_apply(at))
}

fn conds_from_text(s: &str, at: usize) -> (res: Result<(CondsDisplayConfig, Vec<(usize, String)>), FieldError>)
    requires
        at + 7 <= 17,
    ensures
        match res {
            Ok((v, cs)) => conds_parse(s@, at as int) == Ok::<_, (int, Seq<char>)>((v, assignment_views(cs@))),
            Err(e) => conds_parse(s@, at as int) is Err
                && e.field@ == conds_names()[conds_parse(s@, at as int)->Err_0.0]
                && e.text@ == conds_parse(s@, at as int)->Err_0.1,
        },
{
    let mut names: Vec<String> = Vec::new();
    names.push(String::from_str("disguised"));
    names.push(String::from_str("taunting"));
    names.push(String::from_str("zoomed"));
    names.push(String::from_str("invisible"));
    names.push(String::from_str("milked"));
    names.push(String::from_str("mg"));
    names.push(String::from_str("butter"));
    assert(texts(names@) =~= conds_names());
    let asg = parse_record(s, &names);
    let ghost av = assignment_views(asg@);
    proof {
        lemma_assignments_bounds(lines(s@), conds_names());
    }
    let mut v = CondsDisplayConfig::default();
    let mut cs: Vec<(usize, String)> = Vec::new();
    let mut i: usize = 0;
    assert(av.skip(0) == av);
    assert(assignment_views(cs@) =~= Seq::<(int, Seq<char>)>::empty());
    while i < asg.len()
        invariant
            i <= asg@.len(),
            at + 7 <= 17,
            av == assignment_views(asg@),
            av == assignments(lines(s@), conds_names()),
            texts(names@) == conds_names(),
            names@.len() == 7,
            conds_parse(s@, at as int) == fold_fields((v, assignment_views(cs@)), av.skip(i as int), conds_apply(at as int)),
            forall|j: int| 0 <= j < av.len() ==> 0 <= (#[trigger] av[j]).0 < 7,
        decreases asg@.len() - i,
    {
        let idx = asg[i].0;
        assert(av.skip(i as int)[0] == av[i as int]);
        assert(av.skip(i as int).drop_first() == av.skip(i + 1));
        if idx == 0 {
            match cond_from_text(asg[i].1.as_str(), at + 0) {
                Ok((r, rcs)) => {
                    v.disguised = r;
                    append_texts(&mut cs, rcs);
                },
                Err(_) => return Err(FieldError { field: names[0].clone(), text: asg[i].1.clone() }),
            }
        } else if idx == 1 {
            match cond_from_text(asg[i].1.as_str(), at + 1) {
                Ok((r, rcs)) => {
                    v.taunting = r;
                    append_texts(&mut cs, rcs);
                },
                Err(_) => return Err(FieldError { field: names[1].clone(), text: asg[i].1.clone() }),
            }
        } else if idx == 2 {
            match cond_from_text(asg[i].1.as_str(), at + 2) {
                Ok((r, rcs)) => {
                    v.zoomed = r;
                    append_texts(&mut cs, rcs);
                },
                Err(_) => return Err(FieldError { field: names[2].clone(), text: asg[i].1.clone() }),
            }
        } else if idx == 3 {
            match cond_from_text(asg[i].1.as_str(), at + 3) {
                Ok((r, rcs)) => {
                    v.invisible = r;
                    append_texts(&mut cs, rcs);
                },
                Err(_) => return Err(FieldError { field: names[3].clone(), text: asg[i].1.clone() }),
            }
        } else if idx == 4 {
            match cond_from_text(asg[i].1.as_str(), at + 4) {
                Ok((r, rcs)) => {
                    v.milked = r;
                    append_texts(&mut cs, rcs);
                },
                Err(_) => return Err(FieldError { field: names[4].clone(), text: asg[i].1.clone() }),
            }
        } else if idx == 5 {
            match cond_from_text(asg[i].1.as_str(), at + 5) {
                Ok((r, rcs)) => {
                    v.mg = r;
                    append_texts(&mut cs, rcs);
                },
                Err(_) => return Err(FieldError { field: names[5].clone(), text: asg[i].1.clone() }),
            }
        } else {
            match cond_from_text(asg[i].1.as_str(), at + 6) {
                Ok((r, rcs)) => {
                    v.butter = r;
                    append_texts(&mut cs, rcs);
                },
                Err(_) => return Err(FieldError { field: names[6].clone(), text: asg[i].1.clone() }),
            }
        }
        i = i + 1;
    }
    Ok((v, cs))
}

/// The field names of `EspColorConfig`.
pub open spec fn esp_colors_names() -> Seq<Seq<char>> {
    seq!["use_team_colors"@, "enemy"@, "friendly"@]
}

/// `EspColorConfig` with one field read; colors, from position `at` on, are kept
/// as text.
pub open spec fn esp_colors_apply(at: int) -> spec_fn((EspColorConfig, ColorTexts), (int, Seq<char>)) -> Option<(EspColorConfig, ColorTexts)> {
    |st: (EspColorConfig, ColorTexts), a: (int, Seq<char>)|
        if a.0 == 0 {
            match parse_bool_spec(a.1) {
                Some(b) => Some((EspColorConfig { use_team_colors: b, ..st.0 }, st.1)),
                None => None,
            }
        } else if a.0 == 1 {
            Some((st.0, st.1.push((at + 0, a.1))))
        } else {
            Some((st.0, st.1.push((at + 1, a.1))))
        }
}

/// `EspColorConfig` read from `s`, with the texts of its colors.
pub open spec fn esp_colors_parse(s: Seq<char>, at: int) -> Result<(EspColorConfig, ColorTexts), (int, Seq<char>)> {
    fold_fields((default_esp_colors(), Seq::empty()), assignments(lines(s), esp_colors_names()), esp_colors_apply(at))
}

fn esp_colors_from_text(s: &str, at: usize) -> (res: Result<(EspColorConfig, Vec<(usize, String)>), FieldError>)
    requires
        at + 2 <= 17,
    ensures
        match res {
            Ok((v, cs)) => esp_colors_parse(s@, at as int) == Ok::<_, (int, Seq<char>)>((v, assignment_views(cs@))),
            Err(e) => esp_colors_parse(s@, at as int) is Err
                && e.field@ == esp_colors_names()[esp_colors_parse(s@, at as int)->Err_0.0]
                && e.text@ == esp_colors_parse(s@, at as int)->Err_0.1,
        },
{
    let mut names: Vec<String> = Vec::new();
    names.push(String::from_str("use_team_colors"));
    names.push(String::from_str("enemy"));
    names.push(String::from_str("friendly"));
    assert(texts(names@) =~= esp_colors_names());
    let asg = parse_record(s, &names);
    let ghost av = assignment_views(asg@);
    proof {
        lemma_assignments_bounds(lines(s@), esp_colors_names());
    }
    let mut v = EspColorConfig::default();
    let mut cs: Vec<(usize, String)> = Vec::new();
    let mut i: usize = 0;
    assert(av.skip(0) == av);
    assert(assignment_views(cs@) =~= Seq::<(int, Seq<char>)>::empty());
    while i < asg.len()
        invariant
            i <= asg@.len(),
            at + 2 <= 17,
            av == assignment_views(asg@),
            av == assignments(lines(s@), esp_colors_names()),
            texts(names@) == esp_colors_names(),
            names@.len() == 3,
            esp_colors_parse(s@, at as int) == fold_fields((v, assignment_views(cs@)), av.skip(i as int), esp_colors_apply(at as int)),
            forall|j: int| 0 <= j < av.len() ==> 0 <= (#[trigger] av[j]).0 < 3,
        decreases asg@.len() - i,
    {
        let idx = asg[i].0;
        assert(av.skip(i as int)[0] == av[i as int]);
        assert(av.skip(i as int).drop_first() == av.skip(i + 1));
        if idx == 0 {
            match bool_from_text(asg[i].1.as_str()) {
                Some(b) => v.use_team_colors = b,
                None => return Err(FieldError { field: names[0].clone(), text: asg[i].1.clone() }),
            }
        } else if idx == 1 {
            let ghost before = assignment_views(cs@);
            cs.push((at + 0, asg[i].1.clone()));
            assert(assignment_views(cs@) =~= before.push(((at + 0) as int, av[i as int].1)));
        } else {
            let ghost before = assignment_views(cs@);
            cs.push((at + 1, asg[i].1.clone()));
            assert(assignment_views(cs@) =~= before.push(((at + 1) as int, av[i as int].1)));
        }
        i = i + 1;
    }
    Ok((v, cs))
}

/// The field names of `BuildingColorConfig`.
pub open spec fn building_colors_names() -> Seq<Seq<char>> {
    seq!["enemy"@, "friendly"@]
}

/// `BuildingColorConfig` with one field read; colors, from position `at` on, are kept
/// as text.
pub open spec fn building_colors_apply(at: int) -> spec_fn((BuildingColorConfig, ColorTexts), (int, Seq<char>)) -> Option<(BuildingColorConfig, ColorTexts)> {
    |st: (BuildingColorConfig, ColorTexts), a: (int, Seq<char>)|
        if a.0 == 0 {
            Some((st.0, st.1.push((at + 0, a.1))))
        } else {
            Some((st.0, st.1.push((at + 1, a.1))))
        }
}

/// `BuildingColorConfig` read from `s`, with the texts of its colors.
pub open spec fn building_colors_parse(s: Seq<char>, at: int) -> Result<(BuildingColorConfig, ColorTexts), (int, Seq<char>)> {
    fold_fields((default_building(), Seq::empty()), assignments(lines(s), building_colors_names()), building_colors_apply(at))
}

fn building_colors_from_text(s: &str, at: usize) -> (res: Result<(BuildingColorConfig, Vec<(usize, String)>), FieldError>)
    requires
        at + 2 <= 17,
    ensures
        match res {
            Ok((v, cs)) => building_colors_parse(s@, at as int) == Ok::<_, (int, Seq<char>)>((v, assignment_views(cs@))),
            Err(e) => building_colors_parse(s@, at as int) is Err
                && e.field@ == building_colors_names()[building_colors_parse(s@, at as int)->Err_0.0]
                && e.text@ == building_colors_parse(s@, at as int)->Err_0.1,
        },
{
    let mut names: Vec<String> = Vec::new();
    names.push(String::from_str("enemy"));
    names.push(String::from_str("friendly"));
    assert(texts(names@) =~= building_colors_names());
    let asg = parse_record(s, &names);
    let ghost av = assignment_views(asg@);
    proof {
        lemma_assignments_bounds(lines(s@), building_colors_names());
    }
    let mut v = BuildingColorConfig::default();
    let mut cs: Vec<(usize, String)> = Vec::new();
    let mut i: usize = 0;
    assert(av.skip(0) == av);
    assert(assignment_views(cs@) =~= Seq::<(int, Seq<char>)>::empty());
    while i < asg.len()
        invariant
            i <= asg@.len(),
            at + 2 <= 17,
            av == assignment_views(asg@),
            av == assignments(lines(s@), building_colors_names()),
            texts(names@) == building_colors_names(),
            names@.len() == 2,
            building_colors_parse(s@, at as int) == fold_fields((v, assignment_views(cs@)), av.skip(i as int), building_colors_apply(at as int)),
            forall|j: int| 0 <= j < av.len() ==> 0 <= (#[trigger] av[j]).0 < 2,
        decreases asg@.len() - i,
    {
        let idx = asg[i].0;
        assert(av.skip(i as int)[0] == av[i as int]);
        assert(av.skip(i as int).drop_first() == av.skip(i + 1));
        if idx == 0 {
            let ghost before = assignment_views(cs@);
            cs.push((at + 0, asg[i].1.clone()));
            assert(assignment_views(cs@) =~= before.push(((at + 0) as int, av[i as int].1)));
        } else {
            let ghost before = assignment_views(cs@);
            cs.push((at + 1, asg[i].1.clone()));
            assert(assignment_views(cs@) =~= before.push(((at + 1) as int, av[i as int].1)));
        }
        i = i + 1;
    }
    Ok((v, cs))
}

/// The field names of `BuildingsColorsConfig`.
pub open spec fn buildings_names() -> Seq<Seq<char>> {
    seq!["use_team_colors"@, "sentry"@, "dispenser"@, "teleporter"@]
}

/// `BuildingsColorsConfig` with one field read; colors, from position `at` on, are kept
/// as text.
pub open spec fn buildings_apply(at: int) -> spec_fn((BuildingsColorsConfig, ColorTexts), (int, Seq<char>)) -> Option<(BuildingsColorsConfig, ColorTexts)> {
    |st: (BuildingsColorsConfig, ColorTexts), a: (int, Seq<char>)|
        if a.0 == 0 {
            match parse_bool_spec(a.1) {
                Some(b) => Some((BuildingsColorsConfig { use_team_colors: b, ..st.0 }, st.1)),
                None => None,
            }
        } else if a.0 == 1 {
            match building_colors_parse(a.1, at + 0) {
                Ok(r) => Some((BuildingsColorsConfig { sentry: r.0, ..st.0 }, st.1 + r.1)),
                Err(_) => None,
            }
        } else if a.0 == 2 {
            match building_colors_parse(a.1, at + 2) {
                Ok(r) => Some((BuildingsColorsConfig { dispenser: r.0, ..st.0 }, st.1 + r.1)),
                Err(_) => None,
            }
        } else {
            match building_colors_parse(a.1, at + 4) {
                Ok(r) => Some((BuildingsColorsConfig { teleporter: r.0, ..st.0 }, st.1 + r.1)),
                Err(_) => None,
            }
        }
}

/// `BuildingsColorsConfig` read from `s`, with the texts of its colors.
pub open spec fn buildings_parse(s: Seq<char>, at: int) -> Result<(BuildingsColorsConfig, ColorTexts), (int, Seq<char>)> {
    fold_fields((default_colors().buildings, Seq::empty()), assignments(lines(s), buildings_names()), buildings_apply(at))
}

fn buildings_from_text(s: &str, at: usize) -> (res: Result<(BuildingsColorsConfig, Vec<(usize, String)>), FieldError>)
    requires
        at + 6 <= 17,
    ensures
        match res {
            Ok((v, cs)) => buildings_parse(s@, at as int) == Ok::<_, (int, Seq<char>)>((v, assignment_views(cs@))),
            Err(e) => buildings_parse(s@, at as int) is Err
                && e.field@ == buildings_names()[buildings_parse(s@, at as int)->Err_0.0]
                && e.text@ == buildings_parse(s@, at as int)->Err_0.1,
        },
{
    let mut names: Vec<String> = Vec::new();
    names.push(String::from_str("use_team_colors"));
    names.push(String::from_str("sentry"));
    names.push(String::from_str("dispenser"));
    names.push(String::from_str("teleporter"));
    assert(texts(names@) =~= buildings_names());
    let asg = parse_record(s, &names);
    let ghost av = assignment_views(asg@);
    proof {
        lemma_assignments_bounds(lines(s@), buildings_names());
    }
    let mut v = BuildingsColorsConfig::default();
    let mut cs: Vec<(usize, String)> = Vec::new();
    let mut i: usize = 0;
    assert(av.skip(0) == av);
    assert(assignment_views(cs@) =~= Seq::<(int, Seq<char>)>::empty());
    while i < asg.len()
        invariant
            i <= asg@.len(),
            at + 6 <= 17,
            av == assignment_views(asg@),
            av == assignments(lines(s@), buildings_names()),
            texts(names@) == buildings_names(),
            names@.len() == 4,
            buildings_parse(s@, at as int) == fold_fields((v, assignment_views(cs@)), av.skip(i as int), buildings_apply(at as int)),
            forall|j: int| 0 <= j < av.len() ==> 0 <= (#[trigger] av[j]).0 < 4,
        decreases asg@.len() - i,
    {
        let idx = asg[i].0;
        assert(av.skip(i as int)[0] == av[i as int]);
        assert(av.skip(i as int).drop_first() == av.skip(i + 1));
        if idx == 0 {
            match bool_from_text(asg[i].1.as_str()) {
                Some(b) => v.use_team_colors = b,
                None => return Err(FieldError { field: names[0].clone(), text: asg[i].1.clone() }),
            }
        } else if idx == 1 {
            match building_colors_from_text(asg[i].1.as_str(), at + 0) {
                Ok((r, rcs)) => {
                    v.sentry = r;
                    append_texts(&mut cs, rcs);
                },
                Err(_) => return Err(FieldError { field: names[1].clone(), text: asg[i].1.clone() }),
            }
        } else if idx == 2 {
            match building_colors_from_text(asg[i].1.as_str(), at + 2) {
                Ok((r, rcs)) => {
                    v.dispenser = r;
                    append_texts(&mut cs, rcs);
                },
                Err(_) => return Err(FieldError { field: names[2].clone(), text: asg[i].1.clone() }),
            }
        } else {
            match building_colors_from_text(asg[i].1.as_str(), at + 4) {
                Ok((r, rcs)) => {
                    v.teleporter = r;
                    append_texts(&mut cs, rcs);
                },
                Err(_) => return Err(FieldError { field: names[3].clone(), text: asg[i].1.clone() }),
            }
        }
        i = i + 1;
    }
    Ok((v, cs))
}

/// The field names of `ColorsConfig`.
pub open spec fn colors_names() -> Seq<Seq<char>> {
    seq!["boxes"@, "names"@, "buildings"@]
}

/// `ColorsConfig` with one field read; colors, from position `at` on, are kept
/// as text.
pub open spec fn colors_apply(at: int) -> spec_fn((ColorsConfig, ColorTexts), (int, Seq<char>)) -> Option<(ColorsConfig, ColorTexts)> {
    |st: (ColorsConfig, ColorTexts), a: (int, Seq<char>)|
        if a.0 == 0 {
            match esp_colors_parse(a.1, at + 0) {
                Ok(r) => Some((ColorsConfig { boxes: r.0, ..st.0 }, st.1 + r.1)),
                Err(_) => None,
            }
        } else if a.0 == 1 {
            match esp_colors_parse(a.1, at + 2) {
                Ok(r) => Some((ColorsConfig { names: r.0, ..st.0 }, st.1 + r.1)),
                Err(_) => None,
            }
        } else {
            match buildings_parse(a.1, at + 4) {
                Ok(r) => Some((ColorsConfig { buildings: r.0, ..st.0 }, st.1 + r.1)),
                Err(_) => None,
            }
        }
}

/// `ColorsConfig` read from `s`, with the texts of its colors.
pub open spec fn colors_parse(s: Seq<char>, at: int) -> Result<(ColorsConfig, ColorTexts), (int, Seq<char>)> {
    fold_fields((default_colors(), Seq::empty()), assignments(lines(s), colors_names()), colors_apply(at))
}

fn colors_from_text(s: &str, at: usize) -> (res: Result<(ColorsConfig, Vec<(usize, String)>), FieldError>)
    requires
        at + 10 <= 17,
    ensures
        match res {
            Ok((v, cs)) => colors_parse(s@, at as int) == Ok::<_, (int, Seq<char>)>((v, assignment_views(cs@))),
            Err(e) => colors_parse(s@, at as int) is Err
                && e.field@ == colors_names()[colors_parse(s@, at as int)->Err_0.0]
                && e.text@ == colors_parse(s@, at as int)->Err_0.1,
        },
{
    let mut names: Vec<String> = Vec::new();
    names.push(String::from_str("boxes"));
    names.push(String::from_str("names"));
    names.push(String::from_str("buildings"));
    assert(texts(names@) =~= colors_names());
    let asg = parse_record(s, &names);
    let ghost av = assignment_views(asg@);
    proof {
        lemma_assignments_bounds(lines(s@), colors_names());
    }
    let mut v = ColorsConfig::default();
    let mut cs: Vec<(usize, String)> = Vec::new();
    let mut i: usize = 0;
    assert(av.skip(0) == av);
    assert(assignment_views(cs@) =~= Seq::<(int, Seq<char>)>::empty());
    while i < asg.len()
        invariant
            i <= asg@.len(),
            at + 10 <= 17,
            av == assignment_views(asg@),
            av == assignments(lines(s@), colors_names()),
            texts(names@) == colors_names(),
            names@.len() == 3,
            colors_parse(s@, at as int) == fold_fields((v, assignment_views(cs@)), av.skip(i as int), colors_apply(at as int)),
            forall|j: int| 0 <= j < av.len() ==> 0 <= (#[trigger] av[j]).0 < 3,
        decreases asg@.len() - i,
    {
        let idx = asg[i].0;
        assert(av.skip(i as int)[0] == av[i as int]);
        assert(av.skip(i as int).drop_first() == av.skip(i + 1));
        if idx == 0 {
            match esp_colors_from_text(asg[i].1.as_str(), at + 0) {
                Ok((r, rcs)) => {
                    v.boxes = r;
                    append_texts(&mut cs, rcs);
                },
                Err(_) => return Err(FieldError { field: names[0].clone(), text: asg[i].1.clone() }),
            }
        } else if idx == 1 {
            match esp_colors_from_text(asg[i].1.as_str(), at + 2) {
                Ok((r, rcs)) => {
                    v.names = r;
                    append_texts(&mut cs, rcs);
                },
                Err(_) => return Err(FieldError { field: names[1].clone(), text: asg[i].1.clone() }),
            }
        } else {
            match buildings_from_text(asg[i].1.as_str(), at + 4) {
                Ok((r, rcs)) => {
                    v.buildings = r;
                    append_texts(&mut cs, rcs);
                },
                Err(_) => return Err(FieldError { field: names[2].clone(), text: asg[i].1.clone() }),
            }
        }
        i = i + 1;
    }
    Ok((v, cs))
}

/// The field names of `ESPConfig`.
pub open spec fn esp_names() -> Seq<Seq<char>> {
    seq!["master"@, "player_enemy"@, "player_friendly"@, "building_enemy"@, "building_friendly"@, "aimbot_target"@, "conds"@]
}

/// `ESPConfig` with one field read; colors, from position `at` on, are kept
/// as text.
pub open spec fn esp_apply(at: int) -> spec_fn((ESPConfig, ColorTexts), (int, Seq<char>)) -> Option<(ESPConfig, ColorTexts)> {
    |st: (ESPConfig, ColorTexts), a: (int, Seq<char>)|
        if a.0 == 0 {
            match parse_bool_spec(a.1) {
                Some(b) => Some((ESPConfig { master: b, ..st.0 }, st.1)),
                None => None,
            }
        } else if a.0 == 1 {
            match entity_esp_parse(a.1) {
                Ok(r) => Some((ESPConfig { player_enemy: r, ..st.0 }, st.1)),
                Err(_) => None,
            }
        } else if a.0 == 2 {
            match entity_esp_parse(a.1) {
                Ok(r) => Some((ESPConfig { player_friendly: r, ..st.0 }, st.1)),
                Err(_) => None,
            }
        } else if a.0 == 3 {
            match entity_esp_parse(a.1) {
                Ok(r) => Some((ESPConfig { building_enemy: r, ..st.0 }, st.1)),
                Err(_) => None,
            }
        } else if a.0 == 4 {
            match entity_esp_parse(a.1) {
                Ok(r) => Some((ESPConfig { building_friendly: r, ..st.0 }, st.1)),
                Err(_) => None,
            }
        } else if a.0 == 5 {
            match parse_bool_spec(a.1) {
                Some(b) => Some((ESPConfig { aimbot_target: b, ..st.0 }, st.1)),
                None => None,
            }
        } else {
            match conds_parse(a.1, at + 0) {
                Ok(r) => Some((ESPConfig { conds: r.0, ..st.0 }, st.1 + r.1)),
                Err(_) => None,
            }
        }
}

/// `ESPConfig` read from `s`, with the texts of its colors.
pub open spec fn esp_parse(s: Seq<char>, at: int) -> Result<(ESPConfig, ColorTexts), (int, Seq<char>)> {
    fold_fields((default_esp(), Seq::empty()), assignments(lines(s), esp_names()), esp_apply(at))
}

fn esp_from_text(s: &str, at: usize) -> (res: Result<(ESPConfig, Vec<(usize, String)>), FieldError>)
    requires
        at + 7 <= 17,
    ensures
        match res {
            Ok((v, cs)) => esp_parse(s@, at as int) == Ok::<_, (int, Seq<char>)>((v, assignment_views(cs@))),
            Err(e) => esp_parse(s@, at as int) is Err
                && e.field@ == esp_names()[esp_parse(s@, at as int)->Err_0.0]
                && e.text@ == esp_parse(s@, at as int)->Err_0.1,
        },
{
    let mut names: Vec<String> = Vec::new();
    names.push(String::from_str("master"));
    names.push(String::from_str("player_enemy"));
    names.push(String::from_str("player_friendly"));
    names.push(String::from_str("building_enemy"));
    names.push(String::from_str("building_friendly"));
    names.push(String::from_str("aimbot_target"));
    names.push(String::from_str("conds"));
    assert(texts(names@) =~= esp_names());
    let asg = parse_record(s, &names);
    let ghost av = assignment_views(asg@);
    proof {
        lemma_assignments_bounds(lines(s@), esp_names());
    }
    let mut v = ESPConfig::default();
    let mut cs: Vec<(usize, String)> = Vec::new();
    let mut i: usize = 0;
    assert(av.skip(0) == av);
    assert(assignment_views(cs@) =~= Seq::<(int, Seq<char>)>::empty());
    while i < asg.len()
        invariant
            i <= asg@.len(),
            at + 7 <= 17,
            av == assignment_views(asg@),
            av == assignments(lines(s@), esp_names()),
            texts(names@) == esp_names(),
            names@.len() == 7,
            esp_parse(s@, at as int) == fold_fields((v, assignment_views(cs@)), av.skip(i as int), esp_apply(at as int)),
            forall|j: int| 0 <= j < av.len() ==> 0 <= (#[trigger] av[j]).0 < 7,
        decreases asg@.len() - i,
    {
        let idx = asg[i].0;
        assert(av.skip(i as int)[0] == av[i as int]);
        assert(av.skip(i as int).drop_first() == av.skip(i + 1));
        if idx == 0 {
            match bool_from_text(asg[i].1.as_str()) {
                Some(b) => v.master = b,
                None => return Err(FieldError { field: names[0].clone(), text: asg[i].1.clone() }),
            }
        } else if idx == 1 {
            match EntityESPConfig::from_str(asg[i].1.as_str()) {
                Ok(r) => v.player_enemy = r,
                Err(_) => return Err(FieldError { field: names[1].clone(), text: asg[i].1.clone() }),
            }
        } else if idx == 2 {
            match EntityESPConfig::from_str(asg[i].1.as_str()) {
                Ok(r) => v.player_friendly = r,
                Err(_) => return Err(FieldError { field: names[2].clone(), text: asg[i].1.clone() }),
            }
        } else if idx == 3 {
            match EntityESPConfig::from_str(asg[i].1.as_str()) {
                Ok(r) => v.building_enemy = r,
                Err(_) => return Err(FieldError { field: names[3].clone(), text: asg[i].1.clone() }),
            }
        } else if idx == 4 {
            match EntityESPConfig::from_str(asg[i].1.as_str()) {
                Ok(r) => v.building_friendly = r,
                Err(_) => return Err(FieldError { field: names[4].clone(), text: asg[i].1.clone() }),
            }
        } else if idx == 5 {
            match bool_from_text(asg[i].1.as_str()) {
                Some(b) => v.aimbot_target = b,
                None => return Err(FieldError { field: names[5].clone(), text: asg[i].1.clone() }),
            }
        } else {
            match conds_from_text(asg[i].1.as_str(), at + 0) {
                Ok((r, rcs)) => {
                    v.conds = r;
                    append_texts(&mut cs, rcs);
                },
                Err(_) => return Err(FieldError { field: names[6].clone(), text: asg[i].1.clone() }),
            }
        }
        i = i + 1;
    }
    Ok((v, cs))
}

/// The field names of `Config`.
pub open spec fn config_names() -> Seq<Seq<char>> {
    seq!["bunnyhop"@, "esp"@, "aimbot"@, "thirdperson"@, "spectator_list"@, "colors"@]
}

/// `Config` with one field read; colors, from position `at` on, are kept
/// as text.
pub open spec fn config_apply(at: int) -> spec_fn((Config, ColorTexts), (int, Seq<char>)) -> Option<(Config, ColorTexts)> {
    |st: (Config, ColorTexts), a: (int, Seq<char>)|
        if a.0 == 0 {
            match parse_bool_spec(a.1) {
                Some(b) => Some((Config { bunnyhop: b, ..st.0 }, st.1)),
                None => None,
            }
        } else if a.0 == 1 {
            match esp_parse(a.1, at + 0) {
                Ok(r) => Some((Config { esp: r.0, ..st.0 }, st.1 + r.1)),
                Err(_) => None,
            }
        } else if a.0 == 2 {
            match aimbot_parse(a.1) {
                Ok(r) => Some((Config { aimbot: r, ..st.0 }, st.1)),
                Err(_) => None,
            }
        } else if a.0 == 3 {
            match key_config_parse(a.1) {
                Ok(r) => Some((Config { thirdperson: r, ..st.0 }, st.1)),
                Err(_) => None,
            }
        } else if a.0 == 4 {
            match parse_bool_spec(a.1) {
                Some(b) => Some((Config { spectator_list: b, ..st.0 }, st.1)),
                None => None,
            }
        } else {
            match colors_parse(a.1, at + 7) {
                Ok(r) => Some((Config { colors: r.0, ..st.0 }, st.1 + r.1)),
                Err(_) => None,
            }
        }
}

/// `Config` read from `s`, with the texts of its colors.
pub open spec fn config_parse(s: Seq<char>, at: int) -> Result<(Config, ColorTexts), (int, Seq<char>)> {
    fold_fields((default_config(), Seq::empty()), assignments(lines(s), config_names()), config_apply(at))
}

fn config_from_text(s: &str, at: usize) -> (res: Result<(Config, Vec<(usize, String)>), FieldError>)
    requires
        at + 17 <= 17,
    ensures
        match res {
            Ok((v, cs)) => config_parse(s@, at as int) == Ok::<_, (int, Seq<char>)>((v, assignment_views(cs@))),
            Err(e) => config_parse(s@, at as int) is Err
                && e.field@ == config_names()[config_parse(s@, at as int)->Err_0.0]
                && e.text@ == config_parse(s@, at as int)->Err_0.1,
        },
{
    let mut names: Vec<String> = Vec::new();
    names.push(String::from_str("bunnyhop"));
    names.push(String::from_str("esp"));
    names.push(String::from_str("aimbot"));
    names.push(String::from_str("thirdperson"));
    names.push(String::from_str("spectator_list"));
    names.push(String::from_str("colors"));
    assert(texts(names@) =~= config_names());
    let asg = parse_record(s, &names);
    let ghost av = assignment_views(asg@);
    proof {
        lemma_assignments_bounds(lines(s@), config_names());
    }
    let mut v = Config::default();
    let mut cs: Vec<(usize, String)> = Vec::new();
    let mut i: usize = 0;
    assert(av.skip(0) == av);
    assert(assignment_views(cs@) =~= Seq::<(int, Seq<char>)>::empty());
    while i < asg.len()
        invariant
            i <= asg@.len(),
            at + 17 <= 17,
            av == assignment_views(asg@),
            av == assignments(lines(s@), config_names()),
            texts(names@) == config_names(),
            names@.len() == 6,
            config_parse(s@, at as int) == fold_fields((v, assignment_views(cs@)), av.skip(i as int), config_apply(at as int)),
            forall|j: int| 0 <= j < av.len() ==> 0 <= (#[trigger] av[j]).0 < 6,
        decreases asg@.len() - i,
    {
        let idx = asg[i].0;
        assert(av.skip(i as int)[0] == av[i as int]);
        assert(av.skip(i as int).drop_first() == av.skip(i + 1));
        if idx == 0 {
            match bool_from_text(asg[i].1.as_str()) {
                Some(b) => v.bunnyhop = b,
                None => return Err(FieldError { field: names[0].clone(), text: asg[i].1.clone() }),
            }
        } else if idx == 1 {
            match esp_from_text(asg[i].1.as_str(), at + 0) {
                Ok((r, rcs)) => {
                    v.esp = r;
                    append_texts(&mut cs, rcs);
                },
                Err(_) => return Err(FieldError { field: names[1].clone(), text: asg[i].1.clone() }),
            }
        } else if idx == 2 {
            match AimbotConfig::from_str(asg[i].1.as_str()) {
                Ok(r) => v.aimbot = r,
                Err(_) => return Err(FieldError { field: names[2].clone(), text: asg[i].1.clone() }),
            }
        } else if idx == 3 {
            match KeyConfig::from_str(asg[i].1.as_str()) {
                Ok(r) => v.thirdperson = r,
                Err(_) => return Err(FieldError { field: names[3].clone(), text: asg[i].1.clone() }),
            }
        } else if idx == 4 {
            match bool_from_text(asg[i].1.as_str()) {
                Some(b) => v.spectator_list = b,
                None => return Err(FieldError { field: names[4].clone(), text: asg[i].1.clone() }),
            }
        } else {
            match colors_from_text(asg[i].1.as_str(), at + 7) {
                Ok((r, rcs)) => {
                    v.colors = r;
                    append_texts(&mut cs, rcs);
                },
                Err(_) => return Err(FieldError { field: names[5].clone(), text: asg[i].1.clone() }),
            }
        }
        i = i + 1;
    }
    Ok((v, cs))
}


impl Config {
    /// Reads a configuration saved by `to_text`. Fields not in `s` keep
    /// their default. A field that does not read is the error, the first one
    /// in the text, colors aside: the colors are not read here but kept as
    /// text, each with its position in `config_color_list`, in the order in
    /// which they appear, to be read by the caller and set with
    /// `set_color`.
    pub fn from_text(s: &str) -> (res: Result<(Config, Vec<(usize, String)>), FieldError>)
        ensures
            match res {
                Ok((v, cs)) => config_parse(s@, 0) == Ok::<_, (int, Seq<char>)>((v, assignment_views(cs@))),
                Err(e) => config_parse(s@, 0) is Err
                    && e.field@ == config_names()[config_parse(s@, 0)->Err_0.0]
                    && e.text@ == config_parse(s@, 0)->Err_0.1,
            },
    {
        config_from_text(s, 0)
    }
}



/// `c` with the color at position `slot` of `config_color_list` replaced by
/// `col`.
pub open spec fn with_color(c: Config, slot: int, col: ColorF) -> Config {
    if slot == 0 {
        Config { esp: ESPConfig { conds: CondsDisplayConfig { disguised: CondDisplayConfig { color: col, ..c.esp.conds.disguised }, ..c.esp.conds }, ..c.esp }, ..c }
    } else if slot == 1 {
        Config { esp: ESPConfig { conds: CondsDisplayConfig { taunting: CondDisplayConfig { color: col, ..c.esp.conds.taunting }, ..c.esp.conds }, ..c.esp }, ..c }
    } else if slot == 2 {
        Config { esp: ESPConfig { conds: CondsDisplayConfig { zoomed: CondDisplayConfig { color: col, ..c.esp.conds.zoomed }, ..c.esp.conds }, ..c.esp }, ..c }
    } else if slot == 3 {
        Config { esp: ESPConfig { conds: CondsDisplayConfig { invisible: CondDisplayConfig { color: col, ..c.esp.conds.invisible }, ..c.esp.conds }, ..c.esp }, ..c }
    } else if slot == 4 {
        Config { esp: ESPConfig { conds: CondsDisplayConfig { milked: CondDisplayConfig { color: col, ..c.esp.conds.milked }, ..c.esp.conds }, ..c.esp }, ..c }
    } else if slot == 5 {
        Config { esp: ESPConfig { conds: CondsDisplayConfig { mg: CondDisplayConfig { color: col, ..c.esp.conds.mg }, ..c.esp.conds }, ..c.esp }, ..c }
    } else if slot == 6 {
        Config { esp: ESPConfig { conds: CondsDisplayConfig { butter: CondDisplayConfig { color: col, ..c.esp.conds.butter }, ..c.esp.conds }, ..c.esp }, ..c }
    } else if slot == 7 {
        Config { colors: ColorsConfig { boxes: EspColorConfig { enemy: col, ..c.colors.boxes }, ..c.colors }, ..c }
    } else if slot == 8 {
        Config { colors: ColorsConfig { boxes: EspColorConfig { friendly: col, ..c.colors.boxes }, ..c.colors }, ..c }
    } else if slot == 9 {
        Config { colors: ColorsConfig { names: EspColorConfig { enemy: col, ..c.colors.names }, ..c.colors }, ..c }
    } else if slot == 10 {
        Config { colors: ColorsConfig { names: EspColorConfig { friendly: col, ..c.colors.names }, ..c.colors }, ..c }
    } else if slot == 11 {
        Config { colors: ColorsConfig { buildings: BuildingsColorsConfig { sentry: BuildingColorConfig { enemy: col, ..c.colors.buildings.sentry }, ..c.colors.buildings }, ..c.colors }, ..c }
    } else if slot == 12 {
        Config { colors: ColorsConfig { buildings: BuildingsColorsConfig { sentry: BuildingColorConfig { friendly: col, ..c.colors.buildings.sentry }, ..c.colors.buildings }, ..c.colors }, ..c }
    } else if slot == 13 {
        Config { colors: ColorsConfig { buildings: BuildingsColorsConfig { dispenser: BuildingColorConfig { enemy: col, ..c.colors.buildings.dispenser }, ..c.colors.buildings }, ..c.colors }, ..c }
    } else if slot == 14 {
        Config { colors: ColorsConfig { buildings: BuildingsColorsConfig { dispenser: BuildingColorConfig { friendly: col, ..c.colors.buildings.dispenser }, ..c.colors.buildings }, ..c.colors }, ..c }
    } else if slot == 15 {
        Config { colors: ColorsConfig { buildings: BuildingsColorsConfig { teleporter: BuildingColorConfig { enemy: col, ..c.colors.buildings.teleporter }, ..c.colors.buildings }, ..c.colors }, ..c }
    } else {
        Config { colors: ColorsConfig { buildings: BuildingsColorsConfig { teleporter: BuildingColorConfig { friendly: col, ..c.colors.buildings.teleporter }, ..c.colors.buildings }, ..c.colors }, ..c }
    }
}

impl Config {
    /// Sets the color at position `slot` of `config_color_list` (a color
    /// read from a text that `from_text` handed back).
    pub fn set_color(&mut self, slot: usize, color: ColorF)
        requires
            slot < 17,
        ensures
            *final(self) == with_color(*old(self), slot as int, color),
    {
        let mut c: Config = *self;
        if slot == 0 {
            c.esp.conds.disguised.color = color;
        } else if slot == 1 {
            c.esp.conds.taunting.color = color;
        } else if slot == 2 {
            c.esp.conds.zoomed.color = color;
        } else if slot == 3 {
            c.esp.conds.invisible.color = color;
        } else if slot == 4 {
            c.esp.conds.milked.color = color;
        } else if slot == 5 {
            c.esp.conds.mg.color = color;
        } else if slot == 6 {
            c.esp.conds.butter.color = color;
        } else if slot == 7 {
            c.colors.boxes.enemy = color;
        } else if slot == 8 {
            c.colors.boxes.friendly = color;
        } else if slot == 9 {
            c.colors.names.enemy = color;
        } else if slot == 10 {
            c.colors.names.friendly = color;
        } else if slot == 11 {
            c.colors.buildings.sentry.enemy = color;
        } else if slot == 12 {
            c.colors.buildings.sentry.friendly = color;
        } else if slot == 13 {
            c.colors.buildings.dispenser.enemy = color;
        } else if slot == 14 {
            c.colors.buildings.dispenser.friendly = color;
        } else if slot == 15 {
            c.colors.buildings.teleporter.enemy = color;
        } else {
            c.colors.buildings.teleporter.friendly = color;
        }
        *self = c;
    }
}


/// A saved configuration is the record of its six settings under their own
/// names, in the order the reader knows them, and the text saved for each
/// setting that holds no color reads back as that setting: `bunnyhop`,
/// `aimbot`, `thirdperson` and `spectator_list`; the drawing settings and the
/// colors are saved from their own parts of the configuration, with the
/// condition colors first (positions 0 to 6) and the other colors after them
/// (positions 7 to 16).
pub proof fn lemma_config_text_law(c: Config, ct: Seq<Seq<char>>)
    ensures
        exists|fs: Seq<(Seq<char>, Seq<char>)>| {
            &&& config_text(c, ct) == record_text(fs)
            &&& fs.len() == 6
            &&& #[trigger] fs[0].0 == config_names()[0]
            &&& fs[1].0 == config_names()[1]
            &&& fs[2].0 == config_names()[2]
            &&& fs[3].0 == config_names()[3]
            &&& fs[4].0 == config_names()[4]
            &&& fs[5].0 == config_names()[5]
            &&& parse_bool_spec(fs[0].1) == Some(c.bunnyhop)
            &&& aimbot_parse(fs[2].1) == Ok::<AimbotConfig, (int, Seq<char>)>(c.aimbot)
            &&& key_config_parse(fs[3].1) == Ok::<KeyConfig, (int, Seq<char>)>(c.thirdperson)
            &&& parse_bool_spec(fs[4].1) == Some(c.spectator_list)
            &&& fs[1].1 == esp_text(c.esp, ct, 0)
            &&& fs[5].1 == colors_text(c.colors, ct, 7)
        },
{
    let fs = seq![
        ("bunnyhop"@, bool_text(c.bunnyhop)),
        ("esp"@, esp_text(c.esp, ct, 0)),
        ("aimbot"@, aimbot_text(c.aimbot)),
        ("thirdperson"@, key_config_text(c.thirdperson)),
        ("spectator_list"@, bool_text(c.spectator_list)),
        ("colors"@, colors_text(c.colors, ct, 7)),
    ];
    crate::config_text::lemma_bool_round_trip(c.bunnyhop);
    crate::config_text::lemma_bool_round_trip(c.spectator_list);
    crate::config_text::lemma_aimbot_round_trip(c.aimbot);
    crate::config_text::lemma_key_config_round_trip(c.thirdperson);
    assert(config_text(c, ct) == record_text(fs));
    assert(fs[0].0 == config_names()[0]);
}


/// A condition display whose color text is one line reads back from its
/// saved text: its `enabled` flag as saved, and its color text handed back
/// at its position.
pub proof fn lemma_cond_round_trip(v: CondDisplayConfig, ct: Seq<Seq<char>>, at: int)
    requires
        0 <= at < ct.len(),
        good_value(ct[at]),
    ensures
        cond_parse(cond_text(v, ct, at), at) == Ok::<_, (int, Seq<char>)>(
            (CondDisplayConfig { enabled: v.enabled, ..default_cond() }, seq![(at, ct[at])]),
        ),
{
    reveal_strlit("enabled");
    reveal_strlit("color");
    let names = cond_names();
    let fs = seq![("enabled"@, bool_text(v.enabled)), ("color"@, ct[at])];
    lemma_bool_round_trip(v.enabled);
    lemma_position_is(names, "enabled"@, 0);
    assert("enabled"@[0] != "color"@[0]);
    lemma_position_is(names, "color"@, 1);
    assert(good_fields(fs));
    lemma_flat_round_trip(fs, names);
    let asg = expected_assignments(fs, names);
    assert(asg =~= seq![(0int, bool_text(v.enabled)), (1int, ct[at])]);
    let ap = cond_apply(at);
    let s0 = (default_cond(), Seq::<(int, Seq<char>)>::empty());
    let s1 = (CondDisplayConfig { enabled: v.enabled, ..default_cond() }, Seq::<(int, Seq<char>)>::empty());
    let s2 = (s1.0, seq![(at, ct[at])]);
    assert(ap(s0, asg[0]) == Some(s1));
    assert(s1.1.push((at, ct[at])) =~= s2.1);
    assert(ap(s1, asg.drop_first()[0]) == Some(s2));
    assert(asg.drop_first().drop_first().len() == 0);
    assert(fold_fields(s2, asg.drop_first().drop_first(), ap) == Ok::<_, (int, Seq<char>)>(s2));
    assert(fold_fields(s1, asg.drop_first(), ap) == Ok::<_, (int, Seq<char>)>(s2));
    assert(fold_fields(s0, asg, ap) == Ok::<_, (int, Seq<char>)>(s2));
}

/// Box or name colors whose color texts are one line read back from their
/// saved text: the team-color flag as saved, and the enemy and friendly
/// color texts handed back at their positions, in that order.
pub proof fn lemma_esp_colors_round_trip(v: EspColorConfig, ct: Seq<Seq<char>>, at: int)
    requires
        0 <= at && at + 1 < ct.len(),
        good_value(ct[at]),
        good_value(ct[at + 1]),
    ensures
        esp_colors_parse(esp_colors_text(v, ct, at), at) == Ok::<_, (int, Seq<char>)>(
            (EspColorConfig { use_team_colors: v.use_team_colors, ..default_esp_colors() },
            seq![(at, ct[at]), (at + 1, ct[at + 1])]),
        ),
{
    reveal_strlit("use_team_colors");
    reveal_strlit("enemy");
    reveal_strlit("friendly");
    let names = esp_colors_names();
    let fs = seq![("use_team_colors"@, bool_text(v.use_team_colors)), ("enemy"@, ct[at]), ("friendly"@, ct[at + 1])];
    lemma_bool_round_trip(v.use_team_colors);
    assert("use_team_colors"@[0] != "enemy"@[0] && "use_team_colors"@[0] != "friendly"@[0] && "enemy"@[0] != "friendly"@[0]);
    lemma_position_is(names, "use_team_colors"@, 0);
    lemma_position_is(names, "enemy"@, 1);
    lemma_position_is(names, "friendly"@, 2);
    assert(good_fields(fs));
    lemma_flat_round_trip(fs, names);
    let asg = expected_assignments(fs, names);
    assert(asg =~= seq![(0int, bool_text(v.use_team_colors)), (1int, ct[at]), (2int, ct[at + 1])]);
    let ap = esp_colors_apply(at);
    let e = Seq::<(int, Seq<char>)>::empty();
    let s0 = (default_esp_colors(), e);
    let c1 = EspColorConfig { use_team_colors: v.use_team_colors, ..default_esp_colors() };
    let s1 = (c1, e);
    let s2 = (c1, e.push((at + 0, ct[at])));
    let s3 = (c1, s2.1.push((at + 1, ct[at + 1])));
    assert(ap(s0, asg[0]) == Some(s1));
    assert(ap(s1, asg.drop_first()[0]) == Some(s2));
    assert(ap(s2, asg.drop_first().drop_first()[0]) == Some(s3));
    assert(asg.drop_first().drop_first().drop_first().len() == 0);
    assert(fold_fields(s3, asg.drop_first().drop_first().drop_first(), ap) == Ok::<_, (int, Seq<char>)>(s3));
    assert(fold_fields(s2, asg.drop_first().drop_first(), ap) == Ok::<_, (int, Seq<char>)>(s3));
    assert(fold_fields(s1, asg.drop_first(), ap) == Ok::<_, (int, Seq<char>)>(s3));
    assert(fold_fields(s0, asg, ap) == Ok::<_, (int, Seq<char>)>(s3));
    assert(s3.1 =~= seq![(at, ct[at]), (at + 1, ct[at + 1])]);
}

/// A building's colors whose color texts are one line read back from their
/// saved text: the enemy and friendly color texts handed back at their
/// positions, in that order.
pub proof fn lemma_building_colors_round_trip(v: BuildingColorConfig, ct: Seq<Seq<char>>, at: int)
    requires
        0 <= at && at + 1 < ct.len(),
        good_value(ct[at]),
        good_value(ct[at + 1]),
    ensures
        building_colors_parse(building_colors_text(v, ct, at), at) == Ok::<_, (int, Seq<char>)>(
            (default_building(), seq![(at, ct[at]), (at + 1, ct[at + 1])]),
        ),
{
    reveal_strlit("enemy");
    reveal_strlit("friendly");
    let names = building_colors_names();
    let fs = seq![("enemy"@, ct[at]), ("friendly"@, ct[at + 1])];
    assert("enemy"@[0] != "friendly"@[0]);
    lemma_position_is(names, "enemy"@, 0);
    lemma_position_is(names, "friendly"@, 1);
    assert(good_fields(fs));
    lemma_flat_round_trip(fs, names);
    let asg = expected_assignments(fs, names);
    assert(asg =~= seq![(0int, ct[at]), (1int, ct[at + 1])]);
    let ap = building_colors_apply(at);
    let e = Seq::<(int, Seq<char>)>::empty();
    let s0 = (default_building(), e);
    let s1 = (default_building(), e.push((at + 0, ct[at])));
    let s2 = (default_building(), s1.1.push((at + 1, ct[at + 1])));
    assert(ap(s0, asg[0]) == Some(s1));
    assert(ap(s1, asg.drop_first()[0]) == Some(s2));
    assert(asg.drop_first().drop_first().len() == 0);
    assert(fold_fields(s2, asg.drop_first().drop_first(), ap) == Ok::<_, (int, Seq<char>)>(s2));
    assert(fold_fields(s1, asg.drop_first(), ap) == Ok::<_, (int, Seq<char>)>(s2));
    assert(fold_fields(s0, asg, ap) == Ok::<_, (int, Seq<char>)>(s2));
    assert(s2.1 =~= seq![(at, ct[at]), (at + 1, ct[at + 1])]);
}


/// A condition display is saved as its `enabled` flag, which reads back as
/// itself, and its color text `ct[at]`, under the names the reader knows.
pub proof fn lemma_cond_text_law(v: CondDisplayConfig, ct: Seq<Seq<char>>, at: int)
    ensures
        exists|fs: Seq<(Seq<char>, Seq<char>)>| {
            &&& cond_text(v, ct, at) == record_text(fs)
            &&& fs.len() == 2
            &&& #[trigger] fs[0].0 == cond_names()[0]
            &&& fs[1].0 == cond_names()[1]
            &&& parse_bool_spec(fs[0].1) == Some(v.enabled)
            &&& fs[1].1 == ct[at]
        },
{
    let fs = seq![("enabled"@, bool_text(v.enabled)), ("color"@, ct[at])];
    lemma_bool_round_trip(v.enabled);
    assert(cond_text(v, ct, at) == record_text(fs));
    assert(fs[0].0 == cond_names()[0]);
}

/// The condition displays are saved each under its own name, in the order
/// the reader knows them, each as the text of that condition's own display
/// with its own color position.
pub proof fn lemma_conds_text_law(v: CondsDisplayConfig, ct: Seq<Seq<char>>, at: int)
    ensures
        exists|fs: Seq<(Seq<char>, Seq<char>)>| {
            &&& conds_text(v, ct, at) == record_text(fs)
            &&& fs.len() == 7
            &&& #[trigger] fs[0].0 == conds_names()[0]
            &&& fs[1].0 == conds_names()[1]
            &&& fs[2].0 == conds_names()[2]
            &&& fs[3].0 == conds_names()[3]
            &&& fs[4].0 == conds_names()[4]
            &&& fs[5].0 == conds_names()[5]
            &&& fs[6].0 == conds_names()[6]
            &&& fs[0].1 == cond_text(v.disguised, ct, at + 0)
            &&& fs[1].1 == cond_text(v.taunting, ct, at + 1)
            &&& fs[2].1 == cond_text(v.zoomed, ct, at + 2)
            &&& fs[3].1 == cond_text(v.invisible, ct, at + 3)
            &&& fs[4].1 == cond_text(v.milked, ct, at + 4)
            &&& fs[5].1 == cond_text(v.mg, ct, at + 5)
            &&& fs[6].1 == cond_text(v.butter, ct, at + 6)
        },
{
    let fs = seq![("disguised"@, cond_text(v.disguised, ct, at + 0)), ("taunting"@, cond_text(v.taunting, ct, at + 1)), ("zoomed"@, cond_text(v.zoomed, ct, at + 2)), ("invisible"@, cond_text(v.invisible, ct, at + 3)), ("milked"@, cond_text(v.milked, ct, at + 4)), ("mg"@, cond_text(v.mg, ct, at + 5)), ("butter"@, cond_text(v.butter, ct, at + 6))];

    assert(conds_text(v, ct, at) == record_text(fs));
    assert(fs[0].0 == conds_names()[0]);
}

/// Box or name colors are saved as the team-color flag, which reads back as
/// itself, then the enemy color text `ct[at]` and the friendly one
/// `ct[at + 1]`, under the names the reader knows.
pub proof fn lemma_esp_colors_text_law(v: EspColorConfig, ct: Seq<Seq<char>>, at: int)
    ensures
        exists|fs: Seq<(Seq<char>, Seq<char>)>| {
            &&& esp_colors_text(v, ct, at) == record_text(fs)
            &&& fs.len() == 3
            &&& #[trigger] fs[0].0 == esp_colors_names()[0]
            &&& fs[1].0 == esp_colors_names()[1]
            &&& fs[2].0 == esp_colors_names()[2]
            &&& parse_bool_spec(fs[0].1) == Some(v.use_team_colors)
            &&& fs[1].1 == ct[at]
            &&& fs[2].1 == ct[at + 1]
        },
{
    let fs = seq![("use_team_colors"@, bool_text(v.use_team_colors)), ("enemy"@, ct[at]), ("friendly"@, ct[at + 1])];
    lemma_bool_round_trip(v.use_team_colors);
    assert(esp_colors_text(v, ct, at) == record_text(fs));
    assert(fs[0].0 == esp_colors_names()[0]);
}

/// A building's colors are saved as the enemy color text `ct[at]` and the
/// friendly one `ct[at + 1]`, under the names the reader knows.
pub proof fn lemma_building_colors_text_law(v: BuildingColorConfig, ct: Seq<Seq<char>>, at: int)
    ensures
        exists|fs: Seq<(Seq<char>, Seq<char>)>| {
            &&& building_colors_text(v, ct, at) == record_text(fs)
            &&& fs.len() == 2
            &&& #[trigger] fs[0].0 == building_colors_names()[0]
            &&& fs[1].0 == building_colors_names()[1]
            &&& fs[0].1 == ct[at]
            &&& fs[1].1 == ct[at + 1]
        },
{
    let fs = seq![("enemy"@, ct[at]), ("friendly"@, ct[at + 1])];

    assert(building_colors_text(v, ct, at) == record_text(fs));
    assert(fs[0].0 == building_colors_names()[0]);
}

/// The buildings' colors are saved as the team-color flag, which reads back
/// as itself, then each building's own colors with its own color positions,
/// under the names the reader knows.
pub proof fn lemma_buildings_text_law(v: BuildingsColorsConfig, ct: Seq<Seq<char>>, at: int)
    ensures
        exists|fs: Seq<(Seq<char>, Seq<char>)>| {
            &&& buildings_text(v, ct, at) == record_text(fs)
            &&& fs.len() == 4
            &&& #[trigger] fs[0].0 == buildings_names()[0]
            &&& fs[1].0 == buildings_names()[1]
            &&& fs[2].0 == buildings_names()[2]
            &&& fs[3].0 == buildings_names()[3]
            &&& parse_bool_spec(fs[0].1) == Some(v.use_team_colors)
            &&& fs[1].1 == building_colors_text(v.sentry, ct, at)
            &&& fs[2].1 == building_colors_text(v.dispenser, ct, at + 2)
            &&& fs[3].1 == building_colors_text(v.teleporter, ct, at + 4)
        },
{
    let fs = seq![("use_team_colors"@, bool_text(v.use_team_colors)), ("sentry"@, building_colors_text(v.sentry, ct, at)), ("dispenser"@, building_colors_text(v.dispenser, ct, at + 2)), ("teleporter"@, building_colors_text(v.teleporter, ct, at + 4))];
    lemma_bool_round_trip(v.use_team_colors);
    assert(buildings_text(v, ct, at) == record_text(fs));
    assert(fs[0].0 == buildings_names()[0]);
}

/// The colors section is saved as the box colors, the name colors and the
/// building colors, each from its own part of the settings with its own
/// color positions, under the names the reader knows.
pub proof fn lemma_colors_text_law(v: ColorsConfig, ct: Seq<Seq<char>>, at: int)
    ensures
        exists|fs: Seq<(Seq<char>, Seq<char>)>| {
            &&& colors_text(v, ct, at) == record_text(fs)
            &&& fs.len() == 3
            &&& #[trigger] fs[0].0 == colors_names()[0]
            &&& fs[1].0 == colors_names()[1]
            &&& fs[2].0 == colors_names()[2]
            &&& fs[0].1 == esp_colors_text(v.boxes, ct, at)
            &&& fs[1].1 == esp_colors_text(v.names, ct, at + 2)
            &&& fs[2].1 == buildings_text(v.buildings, ct, at + 4)
        },
{
    let fs = seq![("boxes"@, esp_colors_text(v.boxes, ct, at)), ("names"@, esp_colors_text(v.names, ct, at + 2)), ("buildings"@, buildings_text(v.buildings, ct, at + 4))];

    assert(colors_text(v, ct, at) == record_text(fs));
    assert(fs[0].0 == colors_names()[0]);
}

/// The drawing settings are saved each under its own name, in the order the
/// reader knows them: the switches and the four entity groups as texts that
/// read back as themselves, and the condition displays with their color
/// positions.
pub proof fn lemma_esp_text_law(v: ESPConfig, ct: Seq<Seq<char>>, at: int)
    ensures
        exists|fs: Seq<(Seq<char>, Seq<char>)>| {
            &&& esp_text(v, ct, at) == record_text(fs)
            &&& fs.len() == 7
            &&& #[trigger] fs[0].0 == esp_names()[0]
            &&& fs[1].0 == esp_names()[1]
            &&& fs[2].0 == esp_names()[2]
            &&& fs[3].0 == esp_names()[3]
            &&& fs[4].0 == esp_names()[4]
            &&& fs[5].0 == esp_names()[5]
            &&& fs[6].0 == esp_names()[6]
            &&& parse_bool_spec(fs[0].1) == Some(v.master)
            &&& entity_esp_parse(fs[1].1) == Ok::<EntityESPConfig, (int, Seq<char>)>(v.player_enemy)
            &&& entity_esp_parse(fs[2].1) == Ok::<EntityESPConfig, (int, Seq<char>)>(v.player_friendly)
            &&& entity_esp_parse(fs[3].1) == Ok::<EntityESPConfig, (int, Seq<char>)>(v.building_enemy)
            &&& entity_esp_parse(fs[4].1) == Ok::<EntityESPConfig, (int, Seq<char>)>(v.building_friendly)
            &&& parse_bool_spec(fs[5].1) == Some(v.aimbot_target)
            &&& fs[6].1 == conds_text(v.conds, ct, at)
        },
{
    let fs = seq![("master"@, bool_text(v.master)), ("player_enemy"@, entity_esp_text(v.player_enemy)), ("player_friendly"@, entity_esp_text(v.player_friendly)), ("building_enemy"@, entity_esp_text(v.building_enemy)), ("building_friendly"@, entity_esp_text(v.building_friendly)), ("aimbot_target"@, bool_text(v.aimbot_target)), ("conds"@, conds_text(v.conds, ct, at))];
    lemma_bool_round_trip(v.master);
    crate::config_text::lemma_entity_esp_round_trip(v.player_enemy);
    crate::config_text::lemma_entity_esp_round_trip(v.player_friendly);
    crate::config_text::lemma_entity_esp_round_trip(v.building_enemy);
    crate::config_text::lemma_entity_esp_round_trip(v.building_friendly);
    lemma_bool_round_trip(v.aimbot_target);
    assert(esp_text(v, ct, at) == record_text(fs));
    assert(fs[0].0 == esp_names()[0]);
}


/// Setting the color at a position changes exactly the color that
/// `config_colors` lists at that position.
pub proof fn lemma_set_color_law(c: Config, slot: int, col: ColorF)
    requires
        0 <= slot < 17,
    ensures
        config_color_list(with_color(c, slot, col)) == config_color_list(c).update(slot, col),
{
    if slot == 0 {
        assert(config_color_list(with_color(c, slot, col)) =~= config_color_list(c).update(slot, col));
    } else if slot == 1 {
        assert(config_color_list(with_color(c, slot, col)) =~= config_color_list(c).update(slot, col));
    } else if slot == 2 {
        assert(config_color_list(with_color(c, slot, col)) =~= config_color_list(c).update(slot, col));
    } else if slot == 3 {
        assert(config_color_list(with_color(c, slot, col)) =~= config_color_list(c).update(slot, col));
    } else if slot == 4 {
        assert(config_color_list(with_color(c, slot, col)) =~= config_color_list(c).update(slot, col));
    } else if slot == 5 {
        assert(config_color_list(with_color(c, slot, col)) =~= config_color_list(c).update(slot, col));
    } else if slot == 6 {
        assert(config_color_list(with_color(c, slot, col)) =~= config_color_list(c).update(slot, col));
    } else if slot == 7 {
        assert(config_color_list(with_color(c, slot, col)) =~= config_color_list(c).update(slot, col));
    } else if slot == 8 {
        assert(config_color_list(with_color(c, slot, col)) =~= config_color_list(c).update(slot, col));
    } else if slot == 9 {
        assert(config_color_list(with_color(c, slot, col)) =~= config_color_list(c).update(slot, col));
    } else if slot == 10 {
        assert(config_color_list(with_color(c, slot, col)) =~= config_color_list(c).update(slot, col));
    } else if slot == 11 {
        assert(config_color_list(with_color(c, slot, col)) =~= config_color_list(c).update(slot, col));
    } else if slot == 12 {
        assert(config_color_list(with_color(c, slot, col)) =~= config_color_list(c).update(slot, col));
    } else if slot == 13 {
        assert(config_color_list(with_color(c, slot, col)) =~= config_color_list(c).update(slot, col));
    } else if slot == 14 {
        assert(config_color_list(with_color(c, slot, col)) =~= config_color_list(c).update(slot, col));
    } else if slot == 15 {
        assert(config_color_list(with_color(c, slot, col)) =~= config_color_list(c).update(slot, col));
    } else if slot == 16 {
        assert(config_color_list(with_color(c, slot, col)) =~= config_color_list(c).update(slot, col));
    }
}


/// How reading one field changes a configuration being read: a field that
/// does not read stops the reading, and a field that reads sets that field,
/// and only it, to what was read, the colors read inside it being kept as
/// text after those found before.
pub proof fn lemma_config_field_law(st: (Config, ColorTexts), t: Seq<char>)
    ensures
        config_apply(0)(st, (0, t)) == (match parse_bool_spec(t) {
            Some(b) => Some((Config { bunnyhop: b, ..st.0 }, st.1)),
            None => None,
        }),
        config_apply(0)(st, (1, t)) == (match esp_parse(t, 0) {
            Ok(r) => Some((Config { esp: r.0, ..st.0 }, st.1 + r.1)),
            Err(_) => None,
        }),
        config_apply(0)(st, (2, t)) == (match aimbot_parse(t) {
            Ok(a) => Some((Config { aimbot: a, ..st.0 }, st.1)),
            Err(_) => None,
        }),
        config_apply(0)(st, (3, t)) == (match key_config_parse(t) {
            Ok(k) => Some((Config { thirdperson: k, ..st.0 }, st.1)),
            Err(_) => None,
        }),
        config_apply(0)(st, (4, t)) == (match parse_bool_spec(t) {
            Some(b) => Some((Config { spectator_list: b, ..st.0 }, st.1)),
            None => None,
        }),
        config_apply(0)(st, (5, t)) == (match colors_parse(t, 7) {
            Ok(r) => Some((Config { colors: r.0, ..st.0 }, st.1 + r.1)),
            Err(_) => None,
        }),
{
}

/// How reading one field changes drawing settings being read: a field that
/// does not read stops the reading, and a field that reads sets that field,
/// and only it, to what was read.
pub proof fn lemma_esp_field_law(st: (ESPConfig, ColorTexts), t: Seq<char>, at: int)
    ensures
        esp_apply(at)(st, (0, t)) == (match parse_bool_spec(t) {
            Some(b) => Some((ESPConfig { master: b, ..st.0 }, st.1)),
            None => None,
        }),
        esp_apply(at)(st, (1, t)) == (match entity_esp_parse(t) {
            Ok(g) => Some((ESPConfig { player_enemy: g, ..st.0 }, st.1)),
            Err(_) => None,
        }),
        esp_apply(at)(st, (2, t)) == (match entity_esp_parse(t) {
            Ok(g) => Some((ESPConfig { player_friendly: g, ..st.0 }, st.1)),
            Err(_) => None,
        }),
        esp_apply(at)(st, (3, t)) == (match entity_esp_parse(t) {
            Ok(g) => Some((ESPConfig { building_enemy: g, ..st.0 }, st.1)),
            Err(_) => None,
        }),
        esp_apply(at)(st, (4, t)) == (match entity_esp_parse(t) {
            Ok(g) => Some((ESPConfig { building_friendly: g, ..st.0 }, st.1)),
            Err(_) => None,
        }),
        esp_apply(at)(st, (5, t)) == (match parse_bool_spec(t) {
            Some(b) => Some((ESPConfig { aimbot_target: b, ..st.0 }, st.1)),
            None => None,
        }),
        esp_apply(at)(st, (6, t)) == (match conds_parse(t, at) {
            Ok(r) => Some((ESPConfig { conds: r.0, ..st.0 }, st.1 + r.1)),
            Err(_) => None,
        }),
{
}


/// Reading a text with no fields gives the default configuration and no
/// color texts.
pub proof fn lemma_config_empty_text()
    ensures
        config_parse(Seq::empty(), 0) == Ok::<_, (int, Seq<char>)>((default_config(), Seq::<(int, Seq<char>)>::empty())),
{
    assert(lines(Seq::<char>::empty()) == Seq::<Seq<char>>::empty());
    assert(assignments(Seq::<Seq<char>>::empty(), config_names()) == Seq::<(int, Seq<char>)>::empty());
}

} // verus!
