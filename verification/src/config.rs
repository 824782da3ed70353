//! The configuration: its settings, their defaults, the text format in which a
//! configuration is saved, and the list of saved configurations.
use vstd::prelude::*;

use crate::text::{chars_of, lemma_position_is, position_of, push_all, slice_range, string_of};

verus! {

/// A color, each channel held as the bit pattern (`f32::to_bits`) of its
/// floating-point value.
#[derive(Clone, Copy, PartialEq, Eq, Structural, Debug)]
pub struct ColorF {
    pub r: u32,
    pub g: u32,
    pub b: u32,
    pub a: u32,
}

/// The enemy red of the defaults: `(0.863, 0.176, 0.137, 1.0)`.
pub open spec fn enemy_red() -> ColorF {
    ColorF { r: 0x3f5ced91, g: 0x3e343958, b: 0x3e0c49ba, a: 0x3f800000 }
}

/// The friendly blue of the defaults: `(0.157, 0.431, 0.941, 1.0)`.
pub open spec fn friendly_blue() -> ColorF {
    ColorF { r: 0x3e20c49c, g: 0x3edcac08, b: 0x3f70e560, a: 0x3f800000 }
}

/// Opaque white: `(1.0, 1.0, 1.0, 1.0)`.
pub open spec fn opaque_white() -> ColorF {
    ColorF { r: 0x3f800000, g: 0x3f800000, b: 0x3f800000, a: 0x3f800000 }
}

fn red() -> (res: ColorF)
    ensures
        res == enemy_red(),
{
    ColorF { r: 0x3f5ced91, g: 0x3e343958, b: 0x3e0c49ba, a: 0x3f800000 }
}

fn blue() -> (res: ColorF)
    ensures
        res == friendly_blue(),
{
    ColorF { r: 0x3e20c49c, g: 0x3edcac08, b: 0x3f70e560, a: 0x3f800000 }
}

impl Default for ColorF {
    /// All channels `0.0`.
    fn default() -> (res: ColorF)
        ensures
            res == (ColorF { r: 0, g: 0, b: 0, a: 0 }),
    {
        ColorF { r: 0, g: 0, b: 0, a: 0 }
    }
}

/// A key binding: whether a key is used at all, and which keyboard scancode or
/// mouse button it is.
#[derive(Clone, Copy, PartialEq, Eq, Structural, Debug)]
pub struct KeyConfig {
    pub use_key: bool,
    pub is_mouse_button: bool,
    pub code: u32,
}

impl Default for KeyConfig {
    /// No key.
    fn default() -> (res: KeyConfig)
        ensures
            res == (KeyConfig { use_key: false, is_mouse_button: false, code: 0 }),
    {
        KeyConfig { use_key: false, is_mouse_button: false, code: 0 }
    }
}

/// What is drawn for one kind of entity.
#[derive(Clone, Copy, PartialEq, Eq, Structural, Debug)]
pub struct EntityESPConfig {
    pub boxes: bool,
    pub names: bool,
    pub health: bool,
    pub conds: bool,
}

impl Default for EntityESPConfig {
    /// Nothing drawn.
    fn default() -> (res: EntityESPConfig)
        ensures
            res == (EntityESPConfig { boxes: false, names: false, health: false, conds: false }),
    {
        EntityESPConfig { boxes: false, names: false, health: false, conds: false }
    }
}

impl EntityESPConfig {
    /// Whether anything at all is drawn.
    pub fn bool(&self) -> (res: bool)
        ensures
            res == (self.boxes || self.names || self.health || self.conds),
    {
        self.boxes || self.names || self.health || self.conds
    }
}

/// The aim settings.
#[derive(Clone, Copy, PartialEq, Eq, Structural, Debug)]
pub struct AimbotConfig {
    pub master: bool,
    pub silent_aim: bool,
    pub building_aim: bool,
    pub key: KeyConfig,
    pub fov: i32,
    pub draw_fov: bool,
}

impl Default for AimbotConfig {
    /// Everything off, no key, a field of view of 0.
    fn default() -> (res: AimbotConfig)
        ensures
            res == (AimbotConfig {
                master: false,
                silent_aim: false,
                building_aim: false,
                key: KeyConfig { use_key: false, is_mouse_button: false, code: 0 },
                fov: 0,
                draw_fov: false,
            }),
    {
        AimbotConfig {
            master: false,
            silent_aim: false,
            building_aim: false,
            key: KeyConfig::default(),
            fov: 0,
            draw_fov: false,
        }
    }
}

/// Whether a condition is shown, and in which color.
#[derive(Clone, Copy, PartialEq, Eq, Structural, Debug)]
pub struct CondDisplayConfig {
    pub enabled: bool,
    pub color: ColorF,
}

impl Default for CondDisplayConfig {
    /// Shown, in opaque white.
    fn default() -> (res: CondDisplayConfig)
        ensures
            res == (CondDisplayConfig { enabled: true, color: opaque_white() }),
    {
        CondDisplayConfig {
            enabled: true,
            color: ColorF { r: 0x3f800000, g: 0x3f800000, b: 0x3f800000, a: 0x3f800000 },
        }
    }
}

/// The display of each player condition.
#[derive(Clone, Copy, PartialEq, Eq, Structural, Debug)]
pub struct CondsDisplayConfig {
    pub disguised: CondDisplayConfig,
    pub taunting: CondDisplayConfig,
    pub zoomed: CondDisplayConfig,
    pub invisible: CondDisplayConfig,
    pub milked: CondDisplayConfig,
    pub mg: CondDisplayConfig,
    pub butter: CondDisplayConfig,
}

/// The default display of a condition.
pub open spec fn default_cond() -> CondDisplayConfig {
    CondDisplayConfig { enabled: true, color: opaque_white() }
}

impl Default for CondsDisplayConfig {
    /// Every condition shown in opaque white.
    fn default() -> (res: CondsDisplayConfig)
        ensures
            res == (CondsDisplayConfig {
                disguised: default_cond(),
                taunting: default_cond(),
                zoomed: default_cond(),
                invisible: default_cond(),
                milked: default_cond(),
                mg: default_cond(),
                butter: default_cond(),
            }),
    {
        CondsDisplayConfig {
            disguised: CondDisplayConfig::default(),
            taunting: CondDisplayConfig::default(),
            zoomed: CondDisplayConfig::default(),
            invisible: CondDisplayConfig::default(),
            milked: CondDisplayConfig::default(),
            mg: CondDisplayConfig::default(),
            butter: CondDisplayConfig::default(),
        }
    }
}

impl CondsDisplayConfig {
    /// Whether any condition is shown.
    pub fn any_enabled(&self) -> (res: bool)
        ensures
            res == (self.disguised.enabled || self.taunting.enabled || self.zoomed.enabled
                || self.invisible.enabled || self.milked.enabled || self.mg.enabled
                || self.butter.enabled),
    {
        self.disguised.enabled || self.taunting.enabled || self.zoomed.enabled
            || self.invisible.enabled || self.milked.enabled || self.mg.enabled
            || self.butter.enabled
    }

    /// The shown conditions, by their position in `disguised`, `taunting`,
    /// `zoomed`, `invisible`, `milked`, `mg`, `butter`, in that order.
    pub fn enabled_indices(&self) -> (res: Vec<usize>)
        ensures
            forall|i: int, j: int| 0 <= i < j < res@.len() ==> res@[i] < res@[j],
            forall|k: usize| #[trigger] res@.contains(k) <==> (k < 7 && self.flags()[k as int]),
    {
        let flags = [self.disguised.enabled, self.taunting.enabled, self.zoomed.enabled,
            self.invisible.enabled, self.milked.enabled, self.mg.enabled, self.butter.enabled];
        assert(flags@ == self.flags());
        let mut res: Vec<usize> = Vec::new();
        let mut i: usize = 0;
        while i < 7
            invariant
                i <= 7,
                flags@ == self.flags(),
                forall|a: int, b: int| 0 <= a < b < res@.len() ==> res@[a] < res@[b],
                forall|a: int| 0 <= a < res@.len() ==> res@[a] < i,
                forall|k: usize| #[trigger] res@.contains(k) <==> (k < i && self.flags()[k as int]),
            decreases 7 - i,
        {
            if flags[i] {
                let ghost before = res@;
                res.push(i);
                assert(res@ == before.push(i));
                assert forall|k: usize| #[trigger] res@.contains(k) <==> (k < i + 1 && self.flags()[k as int]) by {
                    if k == i {
                        assert(res@[before.len() as int] == k);
                        assert(flags@[i as int]);
                    } else {
                        if res@.contains(k) {
                            let p = choose|p: int| 0 <= p < res@.len() && res@[p] == k;
                            assert(p < before.len());
                            assert(before[p] == k);
                            assert(before.contains(k));
                        }
                        if k < i && self.flags()[k as int] {
                            assert(before.contains(k));
                            let p = choose|p: int| 0 <= p < before.len() && before[p] == k;
                            assert(res@[p] == k);
                        }
                    }
                }
            } else {
                assert forall|k: usize| #[trigger] res@.contains(k) <==> (k < i + 1 && self.flags()[k as int]) by {
                    if k == i && res@.contains(k) {
                        let p = choose|p: int| 0 <= p < res@.len() && res@[p] == k;
                    }
                }
            }
            i = i + 1;
        }
        res
    }

    /// The seven colors, in field order.
    pub open spec fn colors(&self) -> Seq<ColorF> {
        seq![self.disguised.color, self.taunting.color, self.zoomed.color,
            self.invisible.color, self.milked.color, self.mg.color, self.butter.color]
    }

    /// The color of the condition at position `i` in field order, for the
    /// color picker; a position past the last one gives the last condition.
    pub fn color_mut(&mut self, i: usize) -> (res: &mut ColorF)
        ensures
            ({
                let k = if i < 6 { i as int } else { 6 };
                &&& *res == old(self).colors()[k]
                &&& final(self).colors() == old(self).colors().update(k, *final(res))
                &&& final(self).flags() == old(self).flags()
            }),
    {
        if i == 0 {
            &mut self.disguised.color
        } else if i == 1 {
            &mut self.taunting.color
        } else if i == 2 {
            &mut self.zoomed.color
        } else if i == 3 {
            &mut self.invisible.color
        } else if i == 4 {
            &mut self.milked.color
        } else if i == 5 {
            &mut self.mg.color
        } else {
            &mut self.butter.color
        }
    }

    /// The seven `enabled` flags, in field order.
    pub open spec fn flags(&self) -> Seq<bool> {
        seq![self.disguised.enabled, self.taunting.enabled, self.zoomed.enabled,
            self.invisible.enabled, self.milked.enabled, self.mg.enabled, self.butter.enabled]
    }
}


/// Box or name colors: the team colors, or one color for enemies and one for
/// friends.
#[derive(Clone, Copy, PartialEq, Eq, Structural, Debug)]
pub struct EspColorConfig {
    pub use_team_colors: bool,
    pub enemy: ColorF,
    pub friendly: ColorF,
}

impl Default for EspColorConfig {
    /// Team colors; red for enemies and blue for friends otherwise.
    fn default() -> (res: EspColorConfig)
        ensures
            res == (EspColorConfig { use_team_colors: true, enemy: enemy_red(), friendly: friendly_blue() }),
    {
        EspColorConfig { use_team_colors: true, enemy: red(), friendly: blue() }
    }
}

/// The colors of one kind of building.
#[derive(Clone, Copy, PartialEq, Eq, Structural, Debug)]
pub struct BuildingColorConfig {
    pub enemy: ColorF,
    pub friendly: ColorF,
}

impl Default for BuildingColorConfig {
    /// Red for enemies, blue for friends.
    fn default() -> (res: BuildingColorConfig)
        ensures
            res == (BuildingColorConfig { enemy: enemy_red(), friendly: friendly_blue() }),
    {
        BuildingColorConfig { enemy: red(), friendly: blue() }
    }
}

/// The colors of buildings.
#[derive(Clone, Copy, PartialEq, Eq, Structural, Debug)]
pub struct BuildingsColorsConfig {
    pub use_team_colors: bool,
    pub sentry: BuildingColorConfig,
    pub dispenser: BuildingColorConfig,
    pub teleporter: BuildingColorConfig,
}

/// The default colors of a building.
pub open spec fn default_building() -> BuildingColorConfig {
    BuildingColorConfig { enemy: enemy_red(), friendly: friendly_blue() }
}

impl Default for BuildingsColorsConfig {
    /// Team colors; red and blue for every building otherwise.
    fn default() -> (res: BuildingsColorsConfig)
        ensures
            res == (BuildingsColorsConfig {
                use_team_colors: true,
                sentry: default_building(),
                dispenser: default_building(),
                teleporter: default_building(),
            }),
    {
        BuildingsColorsConfig {
            use_team_colors: true,
            sentry: BuildingColorConfig::default(),
            dispenser: BuildingColorConfig::default(),
            teleporter: BuildingColorConfig::default(),
        }
    }
}

/// All colors.
#[derive(Clone, Copy, PartialEq, Eq, Structural, Debug)]
pub struct ColorsConfig {
    pub boxes: EspColorConfig,
    pub names: EspColorConfig,
    pub buildings: BuildingsColorsConfig,
}

/// The default box or name colors.
pub open spec fn default_esp_colors() -> EspColorConfig {
    EspColorConfig { use_team_colors: true, enemy: enemy_red(), friendly: friendly_blue() }
}

/// The default colors.
pub open spec fn default_colors() -> ColorsConfig {
    ColorsConfig {
        boxes: default_esp_colors(),
        names: default_esp_colors(),
        buildings: BuildingsColorsConfig {
            use_team_colors: true,
            sentry: default_building(),
            dispenser: default_building(),
            teleporter: default_building(),
        },
    }
}

impl Default for ColorsConfig {
    /// The default colors of boxes, names and buildings.
    fn default() -> (res: ColorsConfig)
        ensures
            res == default_colors(),
    {
        ColorsConfig {
            boxes: EspColorConfig::default(),
            names: EspColorConfig::default(),
            buildings: BuildingsColorsConfig::default(),
        }
    }
}

/// What is drawn, per kind of entity.
#[derive(Clone, Copy, PartialEq, Eq, Structural, Debug)]
pub struct ESPConfig {
    pub master: bool,
    pub player_enemy: EntityESPConfig,
    pub player_friendly: EntityESPConfig,
    pub building_enemy: EntityESPConfig,
    pub building_friendly: EntityESPConfig,
    pub aimbot_target: bool,
    pub conds: CondsDisplayConfig,
}

/// Nothing drawn for an entity.
pub open spec fn no_esp() -> EntityESPConfig {
    EntityESPConfig { boxes: false, names: false, health: false, conds: false }
}

/// The default display of the conditions.
pub open spec fn default_conds() -> CondsDisplayConfig {
    CondsDisplayConfig {
        disguised: default_cond(),
        taunting: default_cond(),
        zoomed: default_cond(),
        invisible: default_cond(),
        milked: default_cond(),
        mg: default_cond(),
        butter: default_cond(),
    }
}

/// The default drawing settings.
pub open spec fn default_esp() -> ESPConfig {
    ESPConfig {
        master: false,
        player_enemy: no_esp(),
        player_friendly: no_esp(),
        building_enemy: no_esp(),
        building_friendly: no_esp(),
        aimbot_target: false,
        conds: default_conds(),
    }
}

impl Default for ESPConfig {
    /// Nothing drawn; every condition shown in white once drawing is on.
    fn default() -> (res: ESPConfig)
        ensures
            res == default_esp(),
    {
        ESPConfig {
            master: false,
            player_enemy: EntityESPConfig::default(),
            player_friendly: EntityESPConfig::default(),
            building_enemy: EntityESPConfig::default(),
            building_friendly: EntityESPConfig::default(),
            aimbot_target: false,
            conds: CondsDisplayConfig::default(),
        }
    }
}

/// The whole configuration.
#[derive(Clone, Copy, PartialEq, Eq, Structural, Debug)]
pub struct Config {
    pub bunnyhop: bool,
    pub esp: ESPConfig,
    pub aimbot: AimbotConfig,
    pub thirdperson: KeyConfig,
    pub spectator_list: bool,
    pub colors: ColorsConfig,
}

/// The default aim settings.
pub open spec fn default_aimbot() -> AimbotConfig {
    AimbotConfig {
        master: false,
        silent_aim: false,
        building_aim: false,
        key: KeyConfig { use_key: false, is_mouse_button: false, code: 0 },
        fov: 0,
        draw_fov: false,
    }
}

/// The default configuration.
pub open spec fn default_config() -> Config {
    Config {
        bunnyhop: false,
        esp: default_esp(),
        aimbot: default_aimbot(),
        thirdperson: KeyConfig { use_key: false, is_mouse_button: false, code: 0 },
        spectator_list: false,
        colors: default_colors(),
    }
}

impl Default for Config {
    /// Every feature off, the default colors.
    fn default() -> (res: Config)
        ensures
            res == default_config(),
    {
        Config {
            bunnyhop: false,
            esp: ESPConfig::default(),
            aimbot: AimbotConfig::default(),
            thirdperson: KeyConfig::default(),
            spectator_list: false,
            colors: ColorsConfig::default(),
        }
    }
}


/// The file name ending of a saved configuration: `.tf_rs.cfg`.
pub open spec fn config_suffix() -> Seq<char> {
    seq!['.', 't', 'f', '_', 'r', 's', '.', 'c', 'f', 'g']
}

/// The configuration name `default`.
pub open spec fn default_name() -> Seq<char> {
    seq!['d', 'e', 'f', 'a', 'u', 'l', 't']
}

/// `s` ends with `p`.
pub open spec fn ends_with(s: Seq<char>, p: Seq<char>) -> bool {
    p.len() <= s.len() && s.subrange(s.len() - p.len(), s.len() as int) == p
}

/// A file holding a saved configuration: its name starts with `'.'` and ends
/// with `.tf_rs.cfg`.
pub open spec fn is_config_file(f: Seq<char>) -> bool {
    f.len() > 0 && f[0] == '.' && ends_with(f, config_suffix())
}

/// `str::trim_start_matches('.')`: `s` without its leading dots.
pub open spec fn strip_dots(s: Seq<char>) -> Seq<char>
    decreases s.len(),
{
    if s.len() > 0 && s[0] == '.' {
        strip_dots(s.drop_first())
    } else {
        s
    }
}

/// `str::trim_end_matches(".tf_rs.cfg")`: `s` without every trailing
/// repetition of the ending.
pub open spec fn strip_suffixes(s: Seq<char>) -> Seq<char>
    decreases s.len(),
{
    if ends_with(s, config_suffix()) {
        strip_suffixes(s.subrange(0, s.len() - config_suffix().len()))
    } else {
        s
    }
}

/// The configuration name that a file name gives.
pub open spec fn config_name(f: Seq<char>) -> Seq<char> {
    strip_suffixes(strip_dots(f))
}

/// The file name under which the configuration `name` is saved:
/// `.{name}.tf_rs.cfg`.
pub open spec fn config_file_text(name: Seq<char>) -> Seq<char> {
    seq!['.'] + name + config_suffix()
}

/// The file name under which the configuration `name` is saved, in the home
/// directory.
pub fn config_file_name(name: &str) -> (res: String)
    ensures
        res@ == config_file_text(name@),
{
    proof {
        reveal_strlit(".");
        reveal_strlit(".tf_rs.cfg");
    }
    let mut out = chars_of(".");
    let n = chars_of(name);
    push_all(&mut out, n.as_slice());
    let suffix = chars_of(".tf_rs.cfg");
    push_all(&mut out, suffix.as_slice());
    string_of(out.as_slice())
}

/// A configuration saved under a name that neither starts with a dot nor
/// ends with `.tf_rs.cfg` is listed again under that same name.
pub proof fn lemma_saved_name_is_listed(name: Seq<char>)
    requires
        name.len() > 0,
        name[0] != '.',
        !ends_with(name, config_suffix()),
    ensures
        is_config_file(config_file_text(name)),
        config_name(config_file_text(name)) == name,
        config_names(seq![config_file_text(name)]) == seq![name],
{
    let f = config_file_text(name);
    let with_suffix = name + config_suffix();
    assert(f.drop_first() =~= with_suffix);
    assert(f[0] == '.');
    assert(with_suffix[0] == name[0]);
    assert(strip_dots(with_suffix) == with_suffix);
    assert(strip_dots(f) == with_suffix);
    assert(with_suffix.subrange(with_suffix.len() - config_suffix().len(), with_suffix.len() as int) =~= config_suffix());
    assert(with_suffix.subrange(0, with_suffix.len() - config_suffix().len()) =~= name);
    assert(strip_suffixes(with_suffix) == strip_suffixes(name));
    assert(f.subrange(f.len() - config_suffix().len(), f.len() as int) =~= config_suffix());
    let fs = seq![f];
    assert(is_config_file(f));
    assert(fs.drop_last() =~= Seq::<Seq<char>>::empty());
    assert(config_names(fs.drop_last()) == Seq::<Seq<char>>::empty());
    assert(config_names(fs) =~= seq![name]);
}

/// The names of the configurations among the files `fs`, in order.
pub open spec fn config_names(fs: Seq<Seq<char>>) -> Seq<Seq<char>>
    decreases fs.len(),
{
    if fs.len() == 0 {
        seq![]
    } else if is_config_file(fs.last()) {
        config_names(fs.drop_last()).push(config_name(fs.last()))
    } else {
        config_names(fs.drop_last())
    }
}

/// `names` with the first `default`, if any, swapped into the first place.
pub open spec fn default_first(names: Seq<Seq<char>>) -> Seq<Seq<char>> {
    let p = position_of(names, default_name());
    if p < names.len() {
        names.update(0, names[p]).update(p, names[0])
    } else {
        names
    }
}

/// Swapping `default` into first place keeps the number of names, puts
/// `default` first whenever it is among them, and leaves the list as it was
/// otherwise.
pub proof fn lemma_default_first(names: Seq<Seq<char>>)
    ensures
        default_first(names).len() == names.len(),
        names.contains(default_name()) ==> default_first(names)[0] == default_name(),
        !names.contains(default_name()) ==> default_first(names) == names,
{
    let p = position_of(names, default_name());
    crate::text::lemma_position_bound(names, default_name());
    if names.contains(default_name()) {
        let q = choose|q: int| 0 <= q < names.len() && names[q] == default_name();
        assert(p < names.len()) by {
            if p >= names.len() {
                assert(names[q] != default_name());
            }
        }
    } else if p < names.len() {
        assert(names.contains(names[p]));
    }
}

fn ends_with_suffix(s: &[char], end: usize) -> (res: bool)
    requires
        end <= s@.len(),
    ensures
        res == ends_with(s@.subrange(0, end as int), config_suffix()),
{
    let suffix = ['.', 't', 'f', '_', 'r', 's', '.', 'c', 'f', 'g'];
    assert(suffix@ == config_suffix());
    if end < 10 {
        return false;
    }
    let ghost t = s@.subrange(0, end as int);
    let mut k: usize = 0;
    while k < 10
        invariant
            k <= 10,
            10 <= end <= s@.len(),
            t == s@.subrange(0, end as int),
            suffix@ == config_suffix(),
            forall|j: int| 0 <= j < k ==> t[end - 10 + j] == suffix@[j],
        decreases 10 - k,
    {
        if s[end - 10 + k] != suffix[k] {
            assert(t.subrange(end - 10, end as int)[k as int] != config_suffix()[k as int]);
            return false;
        }
        k = k + 1;
    }
    assert(t.subrange(end - 10, end as int) =~= config_suffix());
    true
}

/// The configuration name of the file `f`, when `f` is a configuration file.
fn config_name_of(f: &[char]) -> (res: Option<Vec<char>>)
    ensures
        match res {
            Some(n) => is_config_file(f@) && n@ == config_name(f@),
            None => !is_config_file(f@),
        },
{
    if f.len() == 0 || f[0] != '.' || !ends_with_suffix(f, f.len()) {
        assert(f@.subrange(0, f@.len() as int) == f@);
        return None;
    }
    assert(f@.subrange(0, f@.len() as int) == f@);
    let mut a: usize = 0;
    while a < f.len() && f[a] == '.'
        invariant
            a <= f@.len(),
            strip_dots(f@) == strip_dots(f@.subrange(a as int, f@.len() as int)),
        decreases f@.len() - a,
    {
        assert(f@.subrange(a as int, f@.len() as int).drop_first() == f@.subrange(a + 1, f@.len() as int));
        a = a + 1;
    }
    let rest = slice_range(f, a, f.len());
    assert(strip_dots(f@) == rest@);
    let mut b: usize = rest.len();
    assert(rest@.subrange(0, b as int) == rest@);
    while ends_with_suffix(rest.as_slice(), b)
        invariant
            b <= rest@.len(),
            strip_suffixes(rest@) == strip_suffixes(rest@.subrange(0, b as int)),
        decreases b,
    {
        assert(rest@.subrange(0, b as int).subrange(0, b - 10) == rest@.subrange(0, b - 10));
        b = b - 10;
    }
    Some(slice_range(rest.as_slice(), 0, b))
}

impl Config {
    /// The names of the saved configurations among the file names of a
    /// directory listing, in listing order.
    pub fn get_config_names(file_names: &Vec<String>) -> (res: Vec<String>)
        ensures
            res@.map_values(|s: String| s@) == config_names(file_names@.map_values(|s: String| s@)),
    {
        let ghost fs = file_names@.map_values(|s: String| s@);
        let mut res: Vec<String> = Vec::new();
        let mut i: usize = 0;
        while i < file_names.len()
            invariant
                i <= file_names@.len(),
                fs == file_names@.map_values(|s: String| s@),
                res@.map_values(|s: String| s@) == config_names(fs.take(i as int)),
            decreases file_names@.len() - i,
        {
            let f = chars_of(file_names[i].as_str());
            assert(fs.take(i + 1).drop_last() == fs.take(i as int));
            assert(fs.take(i + 1).last() == f@);
            match config_name_of(f.as_slice()) {
                Some(n) => {
                    let ghost before = res@.map_values(|s: String| s@);
                    res.push(string_of(n.as_slice()));
                    assert(res@.map_values(|s: String| s@) =~= before.push(n@));
                },
                None => {},
            }
            i = i + 1;
        }
        assert(fs.take(file_names@.len() as int) == fs);
        res
    }
}

/// Position of the first configuration named `default`, or `names.len()`.
fn default_position(names: &Vec<String>) -> (res: usize)
    ensures
        res == position_of(names@.map_values(|s: String| s@), default_name()),
{
    let ghost ns = names@.map_values(|s: String| s@);
    let d = String::from_str("default");
    proof {
        reveal_strlit("default");
    }
    assert(d@ == default_name());
    let mut p: usize = 0;
    while p < names.len() && names[p] != d
        invariant
            p <= names@.len(),
            ns == names@.map_values(|s: String| s@),
            d@ == default_name(),
            forall|j: int| 0 <= j < p ==> ns[j] != default_name(),
        decreases names@.len() - p,
    {
        p = p + 1;
    }
    proof {
        lemma_position_is(ns, default_name(), p as int);
    }
    p
}

/// Swaps the first configuration named `default` into the first place.
pub fn put_default_first(names: &mut Vec<String>)
    ensures
        final(names)@.map_values(|s: String| s@) == default_first(old(names)@.map_values(|s: String| s@)),
{
    let ghost ns = names@.map_values(|s: String| s@);
    let p = default_position(names);
    if p < names.len() {
        let first = names[0].clone();
        let found = names[p].clone();
        names.set(0, found);
        names.set(p, first);
        assert(names@.map_values(|s: String| s@) =~= default_first(ns));
    }
}

} // verus!
