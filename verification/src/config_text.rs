//! The saved text of the configuration settings that hold no color: the
//! one-line forms of booleans and integers, and the records of key bindings,
//! entity drawing settings and aim settings.
use vstd::prelude::*;

use crate::config::{AimbotConfig, EntityESPConfig, KeyConfig};
use crate::record::{
    assignment_views, assignments, expected_assignments, flat_line, flat_lines, format_record,
    four_spaces, good_fields, good_name, good_value, indentation, is_top, join_lines, key_of,
    lemma_block_assignment, lemma_concat_nl_append, lemma_flat_assignments, lemma_flat_line,
    lemma_flat_record_text, lemma_lines_join, lemma_nested_field_text, lemma_record_text_append,
    pair_views, parse_record, record_text,
};
use crate::text::{
    all_digits, chars_of, decimal, format_i32, format_u32, is_ws, lacks, lemma_decimal,
    lemma_lines_concat_nl, lines, parse_i32, parse_i32_spec, parse_u32, parse_u32_spec,
    plain_line, position_of, signed_decimal, string_of, unsigned_digits,
};

verus! {

/// `"true"`.
pub open spec fn true_text() -> Seq<char> {
    seq!['t', 'r', 'u', 'e']
}

/// `"false"`.
pub open spec fn false_text() -> Seq<char> {
    seq!['f', 'a', 'l', 's', 'e']
}

/// A boolean as `Display` writes it.
pub open spec fn bool_text(b: bool) -> Seq<char> {
    if b {
        true_text()
    } else {
        false_text()
    }
}

/// `bool::from_str`: exactly `true` or `false`.
pub open spec fn parse_bool_spec(s: Seq<char>) -> Option<bool> {
    if s == true_text() {
        Some(true)
    } else if s == false_text() {
        Some(false)
    } else {
        None
    }
}

/// A boolean as `Display` writes it.
pub fn bool_to_text(b: bool) -> (res: String)
    ensures
        res@ == bool_text(b),
{
    if b {
        let r = String::from_str("true");
        proof {
            reveal_strlit("true");
        }
        r
    } else {
        let r = String::from_str("false");
        proof {
            reveal_strlit("false");
        }
        r
    }
}

fn bool_of_chars(s: &[char]) -> (res: Option<bool>)
    ensures
        res == parse_bool_spec(s@),
{
    if s.len() == 4 && s[0] == 't' && s[1] == 'r' && s[2] == 'u' && s[3] == 'e' {
        assert(s@ =~= true_text());
        Some(true)
    } else if s.len() == 5 && s[0] == 'f' && s[1] == 'a' && s[2] == 'l' && s[3] == 's' && s[4] == 'e' {
        assert(s@ =~= false_text());
        Some(false)
    } else {
        proof {
            if s@ == true_text() {
                assert(s@[0] == 't');
            }
            if s@ == false_text() {
                assert(s@[0] == 'f');
            }
        }
        None
    }
}

/// `bool::from_str`.
pub fn bool_from_text(s: &str) -> (res: Option<bool>)
    ensures
        res == parse_bool_spec(s@),
{
    let c = chars_of(s);
    bool_of_chars(c.as_slice())
}

/// A `u32` as `Display` writes it.
pub fn u32_to_text(n: u32) -> (res: String)
    ensures
        res@ == decimal(n as nat),
{
    let c = format_u32(n);
    string_of(c.as_slice())
}

/// `u32::from_str`.
pub fn u32_from_text(s: &str) -> (res: Option<u32>)
    ensures
        res == parse_u32_spec(s@),
{
    let c = chars_of(s);
    parse_u32(c.as_slice())
}

/// An `i32` as `Display` writes it.
pub fn i32_to_text(n: i32) -> (res: String)
    ensures
        res@ == signed_decimal(n as int),
{
    let c = format_i32(n);
    string_of(c.as_slice())
}

/// `i32::from_str`.
pub fn i32_from_text(s: &str) -> (res: Option<i32>)
    ensures
        res == parse_i32_spec(s@),
{
    let c = chars_of(s);
    parse_i32(c.as_slice())
}

/// A boolean reads back from its text.
pub proof fn lemma_bool_round_trip(b: bool)
    ensures
        parse_bool_spec(bool_text(b)) == Some(b),
        good_value(bool_text(b)),
{
    if !b {
        assert(false_text()[0] != true_text()[0]);
    }
}

/// A `u32` reads back from its text.
pub proof fn lemma_u32_round_trip(n: u32)
    ensures
        parse_u32_spec(decimal(n as nat)) == Some(n),
        good_value(decimal(n as nat)),
{
    let d = decimal(n as nat);
    lemma_decimal(n as nat);
    assert(crate::text::is_digit(d[0]));
    assert(unsigned_digits(d) == d);
    assert(crate::text::is_digit(d[d.len() - 1]));
    assert forall|i: int| 0 <= i < d.len() implies d[i] != '\n' by {
        assert(crate::text::is_digit(d[i]));
    }
}

/// An `i32` reads back from its text.
pub proof fn lemma_i32_round_trip(n: i32)
    ensures
        parse_i32_spec(signed_decimal(n as int)) == Some(n),
        good_value(signed_decimal(n as int)),
{
    if n < 0 {
        let m = (-n) as nat;
        let d = decimal(m);
        lemma_decimal(m);
        let s = signed_decimal(n as int);
        assert(s == seq!['-'] + d);
        assert(s.drop_first() == d);
        assert(crate::text::is_digit(d[d.len() - 1]));
        assert(s.last() == d.last());
        assert forall|i: int| 0 <= i < s.len() implies s[i] != '\n' by {
            if i > 0 {
                assert(s[i] == d[i - 1]);
                assert(crate::text::is_digit(d[i - 1]));
            }
        }
    } else {
        let d = decimal(n as nat);
        lemma_decimal(n as nat);
        assert(crate::text::is_digit(d[0]));
        assert(unsigned_digits(d) == d);
        assert(crate::text::is_digit(d[d.len() - 1]));
        assert forall|i: int| 0 <= i < d.len() implies d[i] != '\n' by {
            assert(crate::text::is_digit(d[i]));
        }
    }
}

/// A field that could not be read: its name and the text it was read from.
#[derive(PartialEq, Eq, Debug)]
pub struct FieldError {
    pub field: String,
    pub text: String,
}


/// `"use_key"`.
pub open spec fn use_key_name() -> Seq<char> {
    seq!['u', 's', 'e', '_', 'k', 'e', 'y']
}

/// `"is_mouse_button"`.
pub open spec fn is_mouse_button_name() -> Seq<char> {
    seq!['i', 's', '_', 'm', 'o', 'u', 's', 'e', '_', 'b', 'u', 't', 't', 'o', 'n']
}

/// `"code"`.
pub open spec fn code_name() -> Seq<char> {
    seq!['c', 'o', 'd', 'e']
}

/// The field names of a key binding, in order.
pub open spec fn key_config_names() -> Seq<Seq<char>> {
    seq![use_key_name(), is_mouse_button_name(), code_name()]
}

/// The fields of a key binding with their texts.
pub open spec fn key_config_fields(k: KeyConfig) -> Seq<(Seq<char>, Seq<char>)> {
    seq![
        (use_key_name(), bool_text(k.use_key)),
        (is_mouse_button_name(), bool_text(k.is_mouse_button)),
        (code_name(), decimal(k.code as nat)),
    ]
}

/// The saved text of a key binding.
pub open spec fn key_config_text(k: KeyConfig) -> Seq<char> {
    record_text(key_config_fields(k))
}

/// A key binding with field `a.0` read from the text `a.1`, if it reads.
pub open spec fn key_config_apply(k: KeyConfig, a: (int, Seq<char>)) -> Option<KeyConfig> {
    if a.0 == 0 {
        match parse_bool_spec(a.1) {
            Some(b) => Some(KeyConfig { use_key: b, ..k }),
            None => None,
        }
    } else if a.0 == 1 {
        match parse_bool_spec(a.1) {
            Some(b) => Some(KeyConfig { is_mouse_button: b, ..k }),
            None => None,
        }
    } else {
        match parse_u32_spec(a.1) {
            Some(n) => Some(KeyConfig { code: n, ..k }),
            None => None,
        }
    }
}

/// The assignments applied in order to `k`; the first that does not read is
/// the error.
pub open spec fn key_config_fold(k: KeyConfig, asg: Seq<(int, Seq<char>)>) -> Result<KeyConfig, (int, Seq<char>)>
    decreases asg.len(),
{
    if asg.len() == 0 {
        Ok(k)
    } else {
        match key_config_apply(k, asg[0]) {
            Some(k2) => key_config_fold(k2, asg.drop_first()),
            None => Err(asg[0]),
        }
    }
}

/// A key binding read from `s`: the default binding with every field that
/// `s` assigns read in turn.
pub open spec fn key_config_parse(s: Seq<char>) -> Result<KeyConfig, (int, Seq<char>)> {
    key_config_fold(
        KeyConfig { use_key: false, is_mouse_button: false, code: 0 },
        assignments(lines(s), key_config_names()),
    )
}

fn key_config_field_names() -> (res: Vec<String>)
    ensures
        res@.map_values(|s: String| s@) == key_config_names(),
        res@.len() == 3,
{
    proof {
        reveal_strlit("use_key");
        reveal_strlit("is_mouse_button");
        reveal_strlit("code");
    }
    let mut v: Vec<String> = Vec::new();
    v.push(String::from_str("use_key"));
    v.push(String::from_str("is_mouse_button"));
    v.push(String::from_str("code"));
    assert(v@.len() == 3);
    assert(v@[0]@ == use_key_name());
    assert(v@[1]@ == is_mouse_button_name());
    assert(v@[2]@ == code_name());
    assert(v@.map_values(|s: String| s@) =~= key_config_names());
    v
}

impl KeyConfig {
    /// The saved text of the binding: `use_key`, `is_mouse_button` and `code`,
    /// one per line.
    pub fn to_string(&self) -> (res: String)
        ensures
            res@ == key_config_text(*self),
    {
        let names = key_config_field_names();
        let mut fields: Vec<(String, String)> = Vec::new();
        fields.push((names[0].clone(), bool_to_text(self.use_key)));
        fields.push((names[1].clone(), bool_to_text(self.is_mouse_button)));
        fields.push((names[2].clone(), u32_to_text(self.code)));
        assert(pair_views(fields@) =~= key_config_fields(*self));
        format_record(&fields)
    }

    /// Reads a binding saved by `to_string`: fields not in `s` keep their
    /// default, and the first field whose text does not read is the error.
    pub fn from_str(s: &str) -> (res: Result<KeyConfig, FieldError>)
        ensures
            match res {
                Ok(k) => key_config_parse(s@) == Ok::<KeyConfig, (int, Seq<char>)>(k),
                Err(e) => key_config_parse(s@) is Err
                    && e.field@ == key_config_names()[key_config_parse(s@)->Err_0.0]
                    && e.text@ == key_config_parse(s@)->Err_0.1,
            },
    {
        let names = key_config_field_names();
        let asg = parse_record(s, &names);
        let ghost av = assignment_views(asg@);
        let mut k = KeyConfig::default();
        let mut i: usize = 0;
        assert(av.skip(0) == av);
        proof {
            crate::record::lemma_assignments_bounds(lines(s@), key_config_names());
        }
        while i < asg.len()
            invariant
                i <= asg@.len(),
                av == assignment_views(asg@),
                av == assignments(lines(s@), key_config_names()),
                names@.map_values(|s: String| s@) == key_config_names(),
                names@.len() == 3,
                key_config_parse(s@) == key_config_fold(k, av.skip(i as int)),
                forall|j: int| 0 <= j < av.len() ==> 0 <= (#[trigger] av[j]).0 < 3,
            decreases asg@.len() - i,
        {
            let idx = asg[i].0;
            let text = chars_of(asg[i].1.as_str());
            assert(av.skip(i as int)[0] == av[i as int]);
            assert(av.skip(i as int).drop_first() == av.skip(i + 1));
            if idx == 0 {
                match bool_of_chars(text.as_slice()) {
                    Some(b) => k.use_key = b,
                    None => return Err(FieldError { field: names[0].clone(), text: asg[i].1.clone() }),
                }
            } else if idx == 1 {
                match bool_of_chars(text.as_slice()) {
                    Some(b) => k.is_mouse_button = b,
                    None => return Err(FieldError { field: names[1].clone(), text: asg[i].1.clone() }),
                }
            } else {
                match parse_u32(text.as_slice()) {
                    Some(n) => k.code = n,
                    None => return Err(FieldError { field: names[2].clone(), text: asg[i].1.clone() }),
                }
            }
            i = i + 1;
        }
        Ok(k)
    }
}


/// The lines of a record of one-line fields read back as its values, each with
/// the position of its name.
pub proof fn lemma_flat_round_trip(fs: Seq<(Seq<char>, Seq<char>)>, names: Seq<Seq<char>>)
    requires
        good_fields(fs),
        forall|j: int| 0 <= j < fs.len() ==> position_of(names, (#[trigger] fs[j]).0) < names.len(),
    ensures
        assignments(lines(record_text(fs)), names) == expected_assignments(fs, names),
{
    let e = Seq::<char>::empty();
    assert(indentation(e));
    lemma_flat_record_text(e, fs);
    let ls = flat_lines(e, fs);
    assert forall|i: int| 0 <= i < ls.len() implies plain_line(#[trigger] ls[i]) by {
        assert(good_name(fs[i].0) && good_value(fs[i].1));
        lemma_flat_line(e, fs[i].0, fs[i].1);
    }
    lemma_lines_concat_nl(ls);
    lemma_flat_assignments(e, fs, names, Seq::<Seq<char>>::empty());
    assert(ls + Seq::<Seq<char>>::empty() == ls);
    assert(expected_assignments(fs, names) + assignments(Seq::<Seq<char>>::empty(), names)
        == expected_assignments(fs, names));
}

proof fn lemma_key_config_names()
    ensures
        good_name(use_key_name()),
        good_name(is_mouse_button_name()),
        good_name(code_name()),
        position_of(key_config_names(), use_key_name()) == 0,
        position_of(key_config_names(), is_mouse_button_name()) == 1,
        position_of(key_config_names(), code_name()) == 2,
{
    let f = key_config_names();
    crate::text::lemma_position_is(f, use_key_name(), 0);
    crate::text::lemma_position_is(f, is_mouse_button_name(), 1);
    crate::text::lemma_position_is(f, code_name(), 2);
}

proof fn lemma_key_config_fields(k: KeyConfig)
    ensures
        good_fields(key_config_fields(k)),
        forall|j: int| 0 <= j < key_config_fields(k).len() ==>
            position_of(key_config_names(), (#[trigger] key_config_fields(k)[j]).0) < key_config_names().len(),
        key_config_fold(KeyConfig { use_key: false, is_mouse_button: false, code: 0 },
            expected_assignments(key_config_fields(k), key_config_names())) == Ok::<KeyConfig, (int, Seq<char>)>(k),
{
    let fs = key_config_fields(k);
    let names = key_config_names();
    lemma_key_config_names();
    lemma_bool_round_trip(k.use_key);
    lemma_bool_round_trip(k.is_mouse_button);
    lemma_u32_round_trip(k.code);
    assert(good_fields(fs));
    let asg = expected_assignments(fs, names);
    assert(asg == seq![(0int, bool_text(k.use_key)), (1int, bool_text(k.is_mouse_button)),
        (2int, decimal(k.code as nat))]);
    let d = KeyConfig { use_key: false, is_mouse_button: false, code: 0 };
    let k1 = KeyConfig { use_key: k.use_key, ..d };
    let k2 = KeyConfig { is_mouse_button: k.is_mouse_button, ..k1 };
    assert(key_config_apply(d, asg[0]) == Some(k1));
    assert(key_config_apply(k1, asg.drop_first()[0]) == Some(k2));
    assert(key_config_apply(k2, asg.drop_first().drop_first()[0]) == Some(k));
    assert(asg.drop_first().drop_first().drop_first().len() == 0);
    assert(key_config_fold(k, asg.drop_first().drop_first().drop_first()) == Ok::<KeyConfig, (int, Seq<char>)>(k));
    assert(key_config_fold(k2, asg.drop_first().drop_first()) == Ok::<KeyConfig, (int, Seq<char>)>(k));
    assert(key_config_fold(k1, asg.drop_first()) == Ok::<KeyConfig, (int, Seq<char>)>(k));
    assert(key_config_fold(d, asg) == Ok::<KeyConfig, (int, Seq<char>)>(k));
}

/// A key binding reads back from its saved text.
pub proof fn lemma_key_config_round_trip(k: KeyConfig)
    ensures
        key_config_parse(key_config_text(k)) == Ok::<KeyConfig, (int, Seq<char>)>(k),
{
    lemma_key_config_fields(k);
    lemma_flat_round_trip(key_config_fields(k), key_config_names());
}


/// `"boxes"`.
pub open spec fn boxes_name() -> Seq<char> {
    seq!['b', 'o', 'x', 'e', 's']
}

/// `"names"`.
pub open spec fn names_name() -> Seq<char> {
    seq!['n', 'a', 'm', 'e', 's']
}

/// `"health"`.
pub open spec fn health_name() -> Seq<char> {
    seq!['h', 'e', 'a', 'l', 't', 'h']
}

/// `"conds"`.
pub open spec fn conds_name() -> Seq<char> {
    seq!['c', 'o', 'n', 'd', 's']
}

/// The field names of an entity drawing setting, in order.
pub open spec fn entity_esp_names() -> Seq<Seq<char>> {
    seq![boxes_name(), names_name(), health_name(), conds_name()]
}

/// The fields of an entity drawing setting with their texts.
pub open spec fn entity_esp_fields(e: EntityESPConfig) -> Seq<(Seq<char>, Seq<char>)> {
    seq![
        (boxes_name(), bool_text(e.boxes)),
        (names_name(), bool_text(e.names)),
        (health_name(), bool_text(e.health)),
        (conds_name(), bool_text(e.conds)),
    ]
}

/// The saved text of an entity drawing setting.
pub open spec fn entity_esp_text(e: EntityESPConfig) -> Seq<char> {
    record_text(entity_esp_fields(e))
}

/// An entity drawing setting with field `a.0` read from `a.1`, if it reads.
pub open spec fn entity_esp_apply(e: EntityESPConfig, a: (int, Seq<char>)) -> Option<EntityESPConfig> {
    match parse_bool_spec(a.1) {
        Some(b) => if a.0 == 0 {
            Some(EntityESPConfig { boxes: b, ..e })
        } else if a.0 == 1 {
            Some(EntityESPConfig { names: b, ..e })
        } else if a.0 == 2 {
            Some(EntityESPConfig { health: b, ..e })
        } else {
            Some(EntityESPConfig { conds: b, ..e })
        },
        None => None,
    }
}

/// The assignments applied in order to `e`; the first that does not read is
/// the error.
pub open spec fn entity_esp_fold(e: EntityESPConfig, asg: Seq<(int, Seq<char>)>) -> Result<EntityESPConfig, (int, Seq<char>)>
    decreases asg.len(),
{
    if asg.len() == 0 {
        Ok(e)
    } else {
        match entity_esp_apply(e, asg[0]) {
            Some(e2) => entity_esp_fold(e2, asg.drop_first()),
            None => Err(asg[0]),
        }
    }
}

/// An entity drawing setting read from `s`, from the default setting.
pub open spec fn entity_esp_parse(s: Seq<char>) -> Result<EntityESPConfig, (int, Seq<char>)> {
    entity_esp_fold(
        EntityESPConfig { boxes: false, names: false, health: false, conds: false },
        assignments(lines(s), entity_esp_names()),
    )
}

fn entity_esp_field_names() -> (res: Vec<String>)
    ensures
        res@.map_values(|s: String| s@) == entity_esp_names(),
        res@.len() == 4,
{
    proof {
        reveal_strlit("boxes");
        reveal_strlit("names");
        reveal_strlit("health");
        reveal_strlit("conds");
    }
    let mut v: Vec<String> = Vec::new();
    v.push(String::from_str("boxes"));
    v.push(String::from_str("names"));
    v.push(String::from_str("health"));
    v.push(String::from_str("conds"));
    assert(v@[0]@ == boxes_name());
    assert(v@[1]@ == names_name());
    assert(v@[2]@ == health_name());
    assert(v@[3]@ == conds_name());
    assert(v@.map_values(|s: String| s@) =~= entity_esp_names());
    v
}

impl EntityESPConfig {
    /// The saved text of the setting: `boxes`, `names`, `health` and `conds`,
    /// one per line.
    pub fn to_string(&self) -> (res: String)
        ensures
            res@ == entity_esp_text(*self),
    {
        let names = entity_esp_field_names();
        let mut fields: Vec<(String, String)> = Vec::new();
        fields.push((names[0].clone(), bool_to_text(self.boxes)));
        fields.push((names[1].clone(), bool_to_text(self.names)));
        fields.push((names[2].clone(), bool_to_text(self.health)));
        fields.push((names[3].clone(), bool_to_text(self.conds)));
        assert(pair_views(fields@) =~= entity_esp_fields(*self));
        format_record(&fields)
    }

    /// Reads a setting saved by `to_string`: fields not in `s` keep their
    /// default, and the first field whose text does not read is the error.
    pub fn from_str(s: &str) -> (res: Result<EntityESPConfig, FieldError>)
        ensures
            match res {
                Ok(e) => entity_esp_parse(s@) == Ok::<EntityESPConfig, (int, Seq<char>)>(e),
                Err(err) => entity_esp_parse(s@) is Err
                    && err.field@ == entity_esp_names()[entity_esp_parse(s@)->Err_0.0]
                    && err.text@ == entity_esp_parse(s@)->Err_0.1,
            },
    {
        let names = entity_esp_field_names();
        let asg = parse_record(s, &names);
        let ghost av = assignment_views(asg@);
        let mut e = EntityESPConfig::default();
        let mut i: usize = 0;
        assert(av.skip(0) == av);
        proof {
            crate::record::lemma_assignments_bounds(lines(s@), entity_esp_names());
        }
        while i < asg.len()
            invariant
                i <= asg@.len(),
                av == assignment_views(asg@),
                av == assignments(lines(s@), entity_esp_names()),
                names@.map_values(|s: String| s@) == entity_esp_names(),
                names@.len() == 4,
                entity_esp_parse(s@) == entity_esp_fold(e, av.skip(i as int)),
                forall|j: int| 0 <= j < av.len() ==> 0 <= (#[trigger] av[j]).0 < 4,
            decreases asg@.len() - i,
        {
            let idx = asg[i].0;
            let text = chars_of(asg[i].1.as_str());
            assert(av.skip(i as int)[0] == av[i as int]);
            assert(av.skip(i as int).drop_first() == av.skip(i + 1));
            match bool_of_chars(text.as_slice()) {
                Some(b) => {
                    if idx == 0 {
                        e.boxes = b;
                    } else if idx == 1 {
                        e.names = b;
                    } else if idx == 2 {
                        e.health = b;
                    } else {
                        e.conds = b;
                    }
                },
                None => return Err(FieldError { field: names[idx].clone(), text: asg[i].1.clone() }),
            }
            i = i + 1;
        }
        Ok(e)
    }
}

proof fn lemma_entity_esp_fields(e: EntityESPConfig)
    ensures
        good_fields(entity_esp_fields(e)),
        forall|j: int| 0 <= j < entity_esp_fields(e).len() ==>
            position_of(entity_esp_names(), (#[trigger] entity_esp_fields(e)[j]).0) < entity_esp_names().len(),
        entity_esp_fold(EntityESPConfig { boxes: false, names: false, health: false, conds: false },
            expected_assignments(entity_esp_fields(e), entity_esp_names()))
            == Ok::<EntityESPConfig, (int, Seq<char>)>(e),
{
    let fs = entity_esp_fields(e);
    let names = entity_esp_names();
    crate::text::lemma_position_is(names, boxes_name(), 0);
    assert(names[0] != names_name());
    crate::text::lemma_position_is(names, names_name(), 1);
    crate::text::lemma_position_is(names, health_name(), 2);
    assert(names[0] != conds_name());
    assert(names[1] != conds_name());
    crate::text::lemma_position_is(names, conds_name(), 3);
    lemma_bool_round_trip(e.boxes);
    lemma_bool_round_trip(e.names);
    lemma_bool_round_trip(e.health);
    lemma_bool_round_trip(e.conds);
    assert(good_fields(fs));
    let asg = expected_assignments(fs, names);
    assert(asg == seq![(0int, bool_text(e.boxes)), (1int, bool_text(e.names)),
        (2int, bool_text(e.health)), (3int, bool_text(e.conds))]);
    let d = EntityESPConfig { boxes: false, names: false, health: false, conds: false };
    let e1 = EntityESPConfig { boxes: e.boxes, ..d };
    let e2 = EntityESPConfig { names: e.names, ..e1 };
    let e3 = EntityESPConfig { health: e.health, ..e2 };
    let a1 = asg.drop_first();
    let a2 = a1.drop_first();
    let a3 = a2.drop_first();
    assert(a3.drop_first().len() == 0);
    assert(entity_esp_apply(e3, a3[0]) == Some(e));
    assert(entity_esp_fold(e, a3.drop_first()) == Ok::<EntityESPConfig, (int, Seq<char>)>(e));
    assert(entity_esp_fold(e3, a3) == Ok::<EntityESPConfig, (int, Seq<char>)>(e));
    assert(entity_esp_apply(e2, a2[0]) == Some(e3));
    assert(entity_esp_fold(e2, a2) == Ok::<EntityESPConfig, (int, Seq<char>)>(e));
    assert(entity_esp_apply(e1, a1[0]) == Some(e2));
    assert(entity_esp_fold(e1, a1) == Ok::<EntityESPConfig, (int, Seq<char>)>(e));
    assert(entity_esp_apply(d, asg[0]) == Some(e1));
    assert(entity_esp_fold(d, asg) == Ok::<EntityESPConfig, (int, Seq<char>)>(e));
}

/// An entity drawing setting reads back from its saved text.
pub proof fn lemma_entity_esp_round_trip(e: EntityESPConfig)
    ensures
        entity_esp_parse(entity_esp_text(e)) == Ok::<EntityESPConfig, (int, Seq<char>)>(e),
{
    lemma_entity_esp_fields(e);
    lemma_flat_round_trip(entity_esp_fields(e), entity_esp_names());
}


/// `"master"`.
pub open spec fn master_name() -> Seq<char> {
    seq!['m', 'a', 's', 't', 'e', 'r']
}

/// `"silent_aim"`.
pub open spec fn silent_aim_name() -> Seq<char> {
    seq!['s', 'i', 'l', 'e', 'n', 't', '_', 'a', 'i', 'm']
}

/// `"building_aim"`.
pub open spec fn building_aim_name() -> Seq<char> {
    seq!['b', 'u', 'i', 'l', 'd', 'i', 'n', 'g', '_', 'a', 'i', 'm']
}

/// `"key"`.
pub open spec fn key_name() -> Seq<char> {
    seq!['k', 'e', 'y']
}

/// `"fov"`.
pub open spec fn fov_name() -> Seq<char> {
    seq!['f', 'o', 'v']
}

/// `"draw_fov"`.
pub open spec fn draw_fov_name() -> Seq<char> {
    seq!['d', 'r', 'a', 'w', '_', 'f', 'o', 'v']
}

/// The field names of the aim settings, in order.
pub open spec fn aimbot_names() -> Seq<Seq<char>> {
    seq![master_name(), silent_aim_name(), building_aim_name(), key_name(), fov_name(), draw_fov_name()]
}

/// The fields of the aim settings with their texts; the key binding's text
/// is its own record.
pub open spec fn aimbot_fields(a: AimbotConfig) -> Seq<(Seq<char>, Seq<char>)> {
    seq![
        (master_name(), bool_text(a.master)),
        (silent_aim_name(), bool_text(a.silent_aim)),
        (building_aim_name(), bool_text(a.building_aim)),
        (key_name(), key_config_text(a.key)),
        (fov_name(), signed_decimal(a.fov as int)),
        (draw_fov_name(), bool_text(a.draw_fov)),
    ]
}

/// The saved text of the aim settings.
pub open spec fn aimbot_text(a: AimbotConfig) -> Seq<char> {
    record_text(aimbot_fields(a))
}

/// Aim settings with field `f.0` read from `f.1`, if it reads.
pub open spec fn aimbot_apply(a: AimbotConfig, f: (int, Seq<char>)) -> Option<AimbotConfig> {
    if f.0 == 3 {
        match key_config_parse(f.1) {
            Ok(k) => Some(AimbotConfig { key: k, ..a }),
            Err(_) => None,
        }
    } else if f.0 == 4 {
        match parse_i32_spec(f.1) {
            Some(n) => Some(AimbotConfig { fov: n, ..a }),
            None => None,
        }
    } else {
        match parse_bool_spec(f.1) {
            Some(b) => if f.0 == 0 {
                Some(AimbotConfig { master: b, ..a })
            } else if f.0 == 1 {
                Some(AimbotConfig { silent_aim: b, ..a })
            } else if f.0 == 2 {
                Some(AimbotConfig { building_aim: b, ..a })
            } else {
                Some(AimbotConfig { draw_fov: b, ..a })
            },
            None => None,
        }
    }
}

/// The assignments applied in order to `a`; the first that does not read is
/// the error.
pub open spec fn aimbot_fold(a: AimbotConfig, asg: Seq<(int, Seq<char>)>) -> Result<AimbotConfig, (int, Seq<char>)>
    decreases asg.len(),
{
    if asg.len() == 0 {
        Ok(a)
    } else {
        match aimbot_apply(a, asg[0]) {
            Some(a2) => aimbot_fold(a2, asg.drop_first()),
            None => Err(asg[0]),
        }
    }
}

/// The default aim settings.
pub open spec fn aimbot_default() -> AimbotConfig {
    AimbotConfig {
        master: false,
        silent_aim: false,
        building_aim: false,
        key: KeyConfig { use_key: false, is_mouse_button: false, code: 0 },
        fov: 0,
        draw_fov: false,
    }
}

/// Aim settings read from `s`, from the default settings.
pub open spec fn aimbot_parse(s: Seq<char>) -> Result<AimbotConfig, (int, Seq<char>)> {
    aimbot_fold(aimbot_default(), assignments(lines(s), aimbot_names()))
}

fn aimbot_field_names() -> (res: Vec<String>)
    ensures
        res@.map_values(|s: String| s@) == aimbot_names(),
        res@.len() == 6,
{
    proof {
        reveal_strlit("master");
        reveal_strlit("silent_aim");
        reveal_strlit("building_aim");
        reveal_strlit("key");
        reveal_strlit("fov");
        reveal_strlit("draw_fov");
    }
    let mut v: Vec<String> = Vec::new();
    v.push(String::from_str("master"));
    v.push(String::from_str("silent_aim"));
    v.push(String::from_str("building_aim"));
    v.push(String::from_str("key"));
    v.push(String::from_str("fov"));
    v.push(String::from_str("draw_fov"));
    assert(v@[0]@ == master_name());
    assert(v@[1]@ == silent_aim_name());
    assert(v@[2]@ == building_aim_name());
    assert(v@[3]@ == key_name());
    assert(v@[4]@ == fov_name());
    assert(v@[5]@ == draw_fov_name());
    assert(v@.map_values(|s: String| s@) =~= aimbot_names());
    v
}

impl AimbotConfig {
    /// The saved text of the settings: `master`, `silent_aim`, `building_aim`,
    /// the key binding as an indented record under `key`, `fov` and
    /// `draw_fov`.
    pub fn to_string(&self) -> (res: String)
        ensures
            res@ == aimbot_text(*self),
    {
        let names = aimbot_field_names();
        let mut fields: Vec<(String, String)> = Vec::new();
        fields.push((names[0].clone(), bool_to_text(self.master)));
        fields.push((names[1].clone(), bool_to_text(self.silent_aim)));
        fields.push((names[2].clone(), bool_to_text(self.building_aim)));
        fields.push((names[3].clone(), self.key.to_string()));
        fields.push((names[4].clone(), i32_to_text(self.fov)));
        fields.push((names[5].clone(), bool_to_text(self.draw_fov)));
        assert(pair_views(fields@) =~= aimbot_fields(*self));
        format_record(&fields)
    }

    /// Reads settings saved by `to_string`: fields not in `s` keep their
    /// default, and the first field whose text does not read is the error.
    pub fn from_str(s: &str) -> (res: Result<AimbotConfig, FieldError>)
        ensures
            match res {
                Ok(a) => aimbot_parse(s@) == Ok::<AimbotConfig, (int, Seq<char>)>(a),
                Err(err) => aimbot_parse(s@) is Err
                    && err.field@ == aimbot_names()[aimbot_parse(s@)->Err_0.0]
                    && err.text@ == aimbot_parse(s@)->Err_0.1,
            },
    {
        let names = aimbot_field_names();
        let asg = parse_record(s, &names);
        let ghost av = assignment_views(asg@);
        let mut a = AimbotConfig::default();
        let mut i: usize = 0;
        assert(av.skip(0) == av);
        proof {
            crate::record::lemma_assignments_bounds(lines(s@), aimbot_names());
        }
        while i < asg.len()
            invariant
                i <= asg@.len(),
                av == assignment_views(asg@),
                av == assignments(lines(s@), aimbot_names()),
                names@.map_values(|s: String| s@) == aimbot_names(),
                names@.len() == 6,
                aimbot_parse(s@) == aimbot_fold(a, av.skip(i as int)),
                forall|j: int| 0 <= j < av.len() ==> 0 <= (#[trigger] av[j]).0 < 6,
            decreases asg@.len() - i,
        {
            let idx = asg[i].0;
            assert(av.skip(i as int)[0] == av[i as int]);
            assert(av.skip(i as int).drop_first() == av.skip(i + 1));
            if idx == 3 {
                match KeyConfig::from_str(asg[i].1.as_str()) {
                    Ok(k) => a.key = k,
                    Err(_) => return Err(FieldError { field: names[3].clone(), text: asg[i].1.clone() }),
                }
            } else if idx == 4 {
                let text = chars_of(asg[i].1.as_str());
                match parse_i32(text.as_slice()) {
                    Some(n) => a.fov = n,
                    None => return Err(FieldError { field: names[4].clone(), text: asg[i].1.clone() }),
                }
            } else {
                let text = chars_of(asg[i].1.as_str());
                match bool_of_chars(text.as_slice()) {
                    Some(b) => {
                        if idx == 0 {
                            a.master = b;
                        } else if idx == 1 {
                            a.silent_aim = b;
                        } else if idx == 2 {
                            a.building_aim = b;
                        } else {
                            a.draw_fov = b;
                        }
                    },
                    None => return Err(FieldError { field: names[idx].clone(), text: asg[i].1.clone() }),
                }
            }
            i = i + 1;
        }
        Ok(a)
    }
}


proof fn lemma_aimbot_names()
    ensures
        position_of(aimbot_names(), master_name()) == 0,
        position_of(aimbot_names(), silent_aim_name()) == 1,
        position_of(aimbot_names(), building_aim_name()) == 2,
        position_of(aimbot_names(), key_name()) == 3,
        position_of(aimbot_names(), fov_name()) == 4,
        position_of(aimbot_names(), draw_fov_name()) == 5,
        position_of(aimbot_names(), use_key_name()) == 6,
        position_of(aimbot_names(), is_mouse_button_name()) == 6,
        position_of(aimbot_names(), code_name()) == 6,
        good_name(master_name()),
        good_name(silent_aim_name()),
        good_name(building_aim_name()),
        good_name(key_name()),
        good_name(fov_name()),
        good_name(draw_fov_name()),
{
    let f = aimbot_names();
    crate::text::lemma_position_is(f, master_name(), 0);
    crate::text::lemma_position_is(f, silent_aim_name(), 1);
    crate::text::lemma_position_is(f, building_aim_name(), 2);
    crate::text::lemma_position_is(f, key_name(), 3);
    assert(f[3][0] != fov_name()[0]);
    crate::text::lemma_position_is(f, fov_name(), 4);
    crate::text::lemma_position_is(f, draw_fov_name(), 5);
    crate::text::lemma_position_is(f, use_key_name(), 6);
    crate::text::lemma_position_is(f, is_mouse_button_name(), 6);
    crate::text::lemma_position_is(f, code_name(), 6);
}

/// The indented lines of the key binding in the saved aim settings.
spec fn aimbot_block(a: AimbotConfig) -> Seq<Seq<char>> {
    flat_lines(four_spaces(), key_config_fields(a.key))
}

/// The lines of the saved aim settings.
spec fn aimbot_lines(a: AimbotConfig) -> Seq<Seq<char>> {
    let e = Seq::<char>::empty();
    flat_lines(e, aimbot_fields(a).take(3))
        + (seq![key_name() + seq![':']] + aimbot_block(a) + flat_lines(e, aimbot_fields(a).skip(4)))
}

/// The assignments that the saved aim settings give.
spec fn aimbot_expected(a: AimbotConfig) -> Seq<(int, Seq<char>)> {
    expected_assignments(aimbot_fields(a).take(3), aimbot_names())
        + (seq![(3int, join_lines(aimbot_block(a)))] + expected_assignments(aimbot_fields(a).skip(4), aimbot_names()))
}

proof fn lemma_aimbot_fields(a: AimbotConfig)
    ensures
        good_fields(aimbot_fields(a).take(3)),
        good_fields(aimbot_fields(a).skip(4)),
        good_fields(key_config_fields(a.key)),
        aimbot_fields(a).skip(4)[0] == (fov_name(), signed_decimal(a.fov as int)),
        forall|j: int| 0 <= j < aimbot_fields(a).take(3).len() ==>
            position_of(aimbot_names(), (#[trigger] aimbot_fields(a).take(3)[j]).0) < aimbot_names().len(),
        forall|j: int| 0 <= j < aimbot_fields(a).skip(4).len() ==>
            position_of(aimbot_names(), (#[trigger] aimbot_fields(a).skip(4)[j]).0) < aimbot_names().len(),
{
    lemma_aimbot_names();
    lemma_bool_round_trip(a.master);
    lemma_bool_round_trip(a.silent_aim);
    lemma_bool_round_trip(a.building_aim);
    lemma_bool_round_trip(a.draw_fov);
    lemma_i32_round_trip(a.fov);
    lemma_key_config_fields(a.key);
}

proof fn lemma_aimbot_text(a: AimbotConfig)
    ensures
        aimbot_text(a) == crate::text::concat_nl(aimbot_lines(a)),
{
    let fs = aimbot_fields(a);
    let e = Seq::<char>::empty();
    lemma_aimbot_fields(a);
    let kfs = key_config_fields(a.key);
    let first = fs.take(3);
    let keyf = seq![fs[3]];
    let last = fs.skip(4);
    assert(fs == first + keyf + last);
    lemma_record_text_append(first + keyf, last);
    lemma_record_text_append(first, keyf);
    assert(keyf.drop_last() == Seq::<(Seq<char>, Seq<char>)>::empty());
    assert(record_text(keyf) == record_text(keyf.drop_last()) + crate::record::field_text(keyf.last().0, keyf.last().1));
    assert(record_text(keyf) =~= crate::record::field_text(key_name(), record_text(kfs)));
    lemma_nested_field_text(key_name(), kfs);
    lemma_flat_record_text(e, first);
    lemma_flat_record_text(e, last);
    let head = seq![key_name() + seq![':']];
    let block = aimbot_block(a);
    let tail = flat_lines(e, last);
    lemma_concat_nl_append(head + block, tail);
    lemma_concat_nl_append(head, block);
    lemma_concat_nl_append(flat_lines(e, first), head + block + tail);
}

proof fn lemma_aimbot_lines(a: AimbotConfig)
    ensures
        lines(aimbot_text(a)) == aimbot_lines(a),
{
    lemma_aimbot_text(a);
    lemma_aimbot_fields(a);
    let fs = aimbot_fields(a);
    let e = Seq::<char>::empty();
    let sp = four_spaces();
    let first = fs.take(3);
    let last = fs.skip(4);
    let kfs = key_config_fields(a.key);
    let all = aimbot_lines(a);
    assert(indentation(sp));
    assert(indentation(e));
    assert forall|i: int| 0 <= i < all.len() implies plain_line(#[trigger] all[i]) by {
        if i < 3 {
            assert(all[i] == flat_line(e, first[i].0, first[i].1));
            lemma_flat_line(e, first[i].0, first[i].1);
        } else if i == 3 {
            assert(all[i] == key_name() + seq![':']);
        } else if i < 7 {
            assert(all[i] == flat_line(sp, kfs[i - 4].0, kfs[i - 4].1));
            lemma_flat_line(sp, kfs[i - 4].0, kfs[i - 4].1);
        } else {
            assert(all[i] == flat_line(e, last[i - 7].0, last[i - 7].1));
            lemma_flat_line(e, last[i - 7].0, last[i - 7].1);
        }
    }
    crate::text::lemma_lines_concat_nl(all);
}

proof fn lemma_aimbot_assignments(a: AimbotConfig)
    ensures
        assignments(aimbot_lines(a), aimbot_names()) == aimbot_expected(a),
{
    lemma_aimbot_fields(a);
    lemma_aimbot_names();
    lemma_key_config_names();
    let fs = aimbot_fields(a);
    let names = aimbot_names();
    let e = Seq::<char>::empty();
    let sp = four_spaces();
    let first = fs.take(3);
    let last = fs.skip(4);
    let kfs = key_config_fields(a.key);
    let head = seq![key_name() + seq![':']];
    let block = aimbot_block(a);
    let tail = flat_lines(e, last);
    assert(indentation(sp));
    assert(indentation(e));
    lemma_flat_assignments(e, first, names, head + block + tail);
    assert forall|m: int| 0 <= m < block.len() implies !is_top(#[trigger] block[m], names) by {
        lemma_flat_line(sp, kfs[m].0, kfs[m].1);
    }
    assert(tail[0] == flat_line(e, fov_name(), signed_decimal(a.fov as int)));
    lemma_flat_line(e, fov_name(), signed_decimal(a.fov as int));
    assert(e + key_name() + seq![':'] == key_name() + seq![':']);
    lemma_block_assignment(e, key_name(), block, names, tail);
    lemma_flat_assignments(e, last, names, Seq::<Seq<char>>::empty());
    assert(tail + Seq::<Seq<char>>::empty() == tail);
}

proof fn lemma_aimbot_key(a: AimbotConfig)
    ensures
        key_config_parse(join_lines(aimbot_block(a))) == Ok::<KeyConfig, (int, Seq<char>)>(a.key),
{
    let kfs = key_config_fields(a.key);
    let sp = four_spaces();
    let block = aimbot_block(a);
    lemma_key_config_fields(a.key);
    assert(indentation(sp));
    assert forall|i: int| 0 <= i < block.len() implies plain_line(#[trigger] block[i]) by {
        lemma_flat_line(sp, kfs[i].0, kfs[i].1);
    }
    lemma_flat_line(sp, kfs[2].0, kfs[2].1);
    lemma_lines_join(block);
    lemma_flat_assignments(sp, kfs, key_config_names(), Seq::<Seq<char>>::empty());
    assert(block + Seq::<Seq<char>>::empty() == block);
}

proof fn lemma_aimbot_fold(a: AimbotConfig)
    ensures
        aimbot_fold(aimbot_default(), aimbot_expected(a)) == Ok::<AimbotConfig, (int, Seq<char>)>(a),
{
    lemma_aimbot_names();
    lemma_bool_round_trip(a.master);
    lemma_bool_round_trip(a.silent_aim);
    lemma_bool_round_trip(a.building_aim);
    lemma_bool_round_trip(a.draw_fov);
    lemma_i32_round_trip(a.fov);
    lemma_aimbot_key(a);
    let asg = aimbot_expected(a);
    let block = aimbot_block(a);
    let d = aimbot_default();
    let a1 = AimbotConfig { master: a.master, ..d };
    let a2 = AimbotConfig { silent_aim: a.silent_aim, ..a1 };
    let a3 = AimbotConfig { building_aim: a.building_aim, ..a2 };
    let a4 = AimbotConfig { key: a.key, ..a3 };
    let a5 = AimbotConfig { fov: a.fov, ..a4 };
    assert(asg.len() == 6);
    let s1 = asg.drop_first();
    let s2 = s1.drop_first();
    let s3 = s2.drop_first();
    let s4 = s3.drop_first();
    let s5 = s4.drop_first();
    assert(s5.drop_first().len() == 0);
    assert(asg[0] == (0int, bool_text(a.master)));
    assert(s1[0] == (1int, bool_text(a.silent_aim)));
    assert(s2[0] == (2int, bool_text(a.building_aim)));
    assert(s3[0] == (3int, join_lines(block)));
    assert(s4[0] == (4int, signed_decimal(a.fov as int)));
    assert(s5[0] == (5int, bool_text(a.draw_fov)));
    assert(aimbot_fold(a, s5.drop_first()) == Ok::<AimbotConfig, (int, Seq<char>)>(a));
    assert(aimbot_apply(a5, s5[0]) == Some(a));
    assert(aimbot_fold(a5, s5) == Ok::<AimbotConfig, (int, Seq<char>)>(a));
    assert(aimbot_apply(a4, s4[0]) == Some(a5));
    assert(aimbot_fold(a4, s4) == Ok::<AimbotConfig, (int, Seq<char>)>(a));
    assert(aimbot_apply(a3, s3[0]) == Some(a4));
    assert(aimbot_fold(a3, s3) == Ok::<AimbotConfig, (int, Seq<char>)>(a));
    assert(aimbot_apply(a2, s2[0]) == Some(a3));
    assert(aimbot_fold(a2, s2) == Ok::<AimbotConfig, (int, Seq<char>)>(a));
    assert(aimbot_apply(a1, s1[0]) == Some(a2));
    assert(aimbot_fold(a1, s1) == Ok::<AimbotConfig, (int, Seq<char>)>(a));
    assert(aimbot_apply(d, asg[0]) == Some(a1));
}

/// Aim settings read back from their saved text.
pub proof fn lemma_aimbot_round_trip(a: AimbotConfig)
    ensures
        aimbot_parse(aimbot_text(a)) == Ok::<AimbotConfig, (int, Seq<char>)>(a),
{
    lemma_aimbot_lines(a);
    lemma_aimbot_assignments(a);
    lemma_aimbot_fold(a);
}

} // verus!
