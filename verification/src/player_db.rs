//! The player database: a category for each player, keyed by the player's
//! GUID, with four user-editable category names, and the line format in which
//! the database is stored.
use vstd::prelude::*;

use crate::config::ColorF;
use crate::text::{
    chars_of, concat_nl, find, find_char, is_ws, lacks, lemma_concat_nl_push, lemma_find_is,
    lemma_lines_concat_nl, lines, lines_of, plain_line, push_all, slice_range, split_once, string_of,
    trim, trim_bounds, views, lemma_trim_id,
};

verus! {

/// The category a player has been put in.
#[derive(Clone, Copy, PartialEq, Eq, Structural, Debug)]
pub enum PlayerCategory {
    NoCategory,
    Category1,
    Category2,
    Category3,
    Category4,
}

/// The per-category colors of the configuration.
#[derive(Clone, Copy, PartialEq, Eq, Structural, Debug)]
pub struct PlayerCategoryColors {
    pub category1: ColorF,
    pub category2: ColorF,
    pub category3: ColorF,
    pub category4: ColorF,
}

/// `"None"`.
pub open spec fn none_label() -> Seq<char> {
    seq!['N', 'o', 'n', 'e']
}

/// `"Cat 1"` .. `"Cat 4"`.
pub open spec fn cat_label(d: char) -> Seq<char> {
    seq!['C', 'a', 't', ' ', d]
}

impl PlayerCategory {
    /// The fixed name of the category, as `name` returns it.
    pub open spec fn label(self) -> Seq<char> {
        match self {
            PlayerCategory::NoCategory => none_label(),
            PlayerCategory::Category1 => cat_label('1'),
            PlayerCategory::Category2 => cat_label('2'),
            PlayerCategory::Category3 => cat_label('3'),
            PlayerCategory::Category4 => cat_label('4'),
        }
    }

    /// The position of the category's editable name (`NoCategory` has none).
    pub open spec fn slot(self) -> int {
        match self {
            PlayerCategory::NoCategory => -1,
            PlayerCategory::Category1 => 0,
            PlayerCategory::Category2 => 1,
            PlayerCategory::Category3 => 2,
            PlayerCategory::Category4 => 3,
        }
    }

    /// The category that `next` gives.
    pub open spec fn spec_next(self) -> PlayerCategory {
        match self {
            PlayerCategory::NoCategory => PlayerCategory::Category1,
            PlayerCategory::Category1 => PlayerCategory::Category2,
            PlayerCategory::Category2 => PlayerCategory::Category3,
            PlayerCategory::Category3 => PlayerCategory::Category4,
            PlayerCategory::Category4 => PlayerCategory::NoCategory,
        }
    }

    /// The fixed name of the category: `"None"`, `"Cat 1"` .. `"Cat 4"`.
    pub fn name(self) -> (res: &'static str)
        ensures
            res@ == self.label(),
    {
        match self {
            PlayerCategory::NoCategory => {
                proof {
                    reveal_strlit("None");
                }
                "None"
            },
            PlayerCategory::Category1 => {
                proof {
                    reveal_strlit("Cat 1");
                }
                "Cat 1"
            },
            PlayerCategory::Category2 => {
                proof {
                    reveal_strlit("Cat 2");
                }
                "Cat 2"
            },
            PlayerCategory::Category3 => {
                proof {
                    reveal_strlit("Cat 3");
                }
                "Cat 3"
            },
            PlayerCategory::Category4 => {
                proof {
                    reveal_strlit("Cat 4");
                }
                "Cat 4"
            },
        }
    }

    /// The name under which the category is shown: `"None"` for `NoCategory`, else
    /// the editable name of its slot in `db`.
    pub fn display_name(self, db: &PlayerDb) -> (res: String)
        requires
            db.wf(),
        ensures
            self == PlayerCategory::NoCategory ==> res@ == none_label(),
            self != PlayerCategory::NoCategory ==> res@ == db.names_view()[self.slot()],
    {
        match self {
            PlayerCategory::NoCategory => String::from_str(self.name()),
            PlayerCategory::Category1 => db.names[0].clone(),
            PlayerCategory::Category2 => db.names[1].clone(),
            PlayerCategory::Category3 => db.names[2].clone(),
            PlayerCategory::Category4 => db.names[3].clone(),
        }
    }

    /// The category after this one, cycling no category, `Cat 1` .. `Cat 4`, no category.
    pub fn next(self) -> (res: PlayerCategory)
        ensures
            res == self.spec_next(),
    {
        match self {
            PlayerCategory::NoCategory => PlayerCategory::Category1,
            PlayerCategory::Category1 => PlayerCategory::Category2,
            PlayerCategory::Category2 => PlayerCategory::Category3,
            PlayerCategory::Category3 => PlayerCategory::Category4,
            PlayerCategory::Category4 => PlayerCategory::NoCategory,
        }
    }

    /// The color that the configuration gives the category; `NoCategory` has the
    /// default (all-zero) color.
    pub fn color(self, colors: &PlayerCategoryColors) -> (res: ColorF)
        ensures
            res == match self {
                PlayerCategory::NoCategory => ColorF { r: 0, g: 0, b: 0, a: 0 },
                PlayerCategory::Category1 => colors.category1,
                PlayerCategory::Category2 => colors.category2,
                PlayerCategory::Category3 => colors.category3,
                PlayerCategory::Category4 => colors.category4,
            },
    {
        match self {
            PlayerCategory::NoCategory => ColorF::default(),
            PlayerCategory::Category1 => colors.category1,
            PlayerCategory::Category2 => colors.category2,
            PlayerCategory::Category3 => colors.category3,
            PlayerCategory::Category4 => colors.category4,
        }
    }

    /// The category whose fixed name is `s`; any other text is `NoCategory`.
    pub fn from_str(s: &str) -> (res: PlayerCategory)
        ensures
            res == category_named(s@),
    {
        let c = chars_of(s);
        category_of_chars(c.as_slice())
    }
}

/// The category whose fixed name is `s`, or `NoCategory`.
pub open spec fn category_named(s: Seq<char>) -> PlayerCategory {
    if s == cat_label('1') {
        PlayerCategory::Category1
    } else if s == cat_label('2') {
        PlayerCategory::Category2
    } else if s == cat_label('3') {
        PlayerCategory::Category3
    } else if s == cat_label('4') {
        PlayerCategory::Category4
    } else {
        PlayerCategory::NoCategory
    }
}

fn category_of_chars(s: &[char]) -> (res: PlayerCategory)
    ensures
        res == category_named(s@),
{
    if s.len() == 5 && s[0] == 'C' && s[1] == 'a' && s[2] == 't' && s[3] == ' ' {
        let d = s[4];
        assert(s@ == cat_label(d));
        if d == '1' {
            PlayerCategory::Category1
        } else if d == '2' {
            PlayerCategory::Category2
        } else if d == '3' {
            PlayerCategory::Category3
        } else if d == '4' {
            PlayerCategory::Category4
        } else {
            PlayerCategory::NoCategory
        }
    } else {
        PlayerCategory::NoCategory
    }
}

/// The category of `g` in a list of entries where a later entry for the same
/// GUID overrides an earlier one.
pub open spec fn lookup(es: Seq<(Seq<char>, PlayerCategory)>, g: Seq<char>) -> Option<PlayerCategory>
    decreases es.len(),
{
    if es.len() == 0 {
        None
    } else if es.last().0 == g {
        Some(es.last().1)
    } else {
        lookup(es.drop_last(), g)
    }
}

/// The map from GUID to category that a list of entries describes.
pub open spec fn entries_map(es: Seq<(Seq<char>, PlayerCategory)>) -> Map<Seq<char>, PlayerCategory> {
    Map::new(|g: Seq<char>| lookup(es, g) is Some, |g: Seq<char>| lookup(es, g)->0)
}

/// When the last entry for `g` stands at `i`, `lookup` finds it; with no entry
/// for `g`, it finds nothing.
pub proof fn lemma_lookup(es: Seq<(Seq<char>, PlayerCategory)>, g: Seq<char>)
    ensures
        (forall|i: int| 0 <= i < es.len() ==> es[i].0 != g) ==> lookup(es, g) is None,
        forall|i: int|
            0 <= i < es.len() && es[i].0 == g && (forall|j: int| i < j < es.len() ==> es[j].0 != g)
                ==> lookup(es, g) == Some(es[i].1),
    decreases es.len(),
{
    if es.len() > 0 {
        lemma_lookup(es.drop_last(), g);
        assert forall|i: int|
            0 <= i < es.len() && es[i].0 == g && (forall|j: int| i < j < es.len() ==> es[j].0 != g)
            implies lookup(es, g) == Some(es[i].1) by {
            if i < es.len() - 1 {
                assert(es[es.len() - 1].0 != g);
                assert forall|j: int| i < j < es.drop_last().len() implies es.drop_last()[j].0 != g by {
                    assert(es.drop_last()[j] == es[j]);
                }
                assert(es.drop_last()[i] == es[i]);
            }
        }
        if forall|i: int| 0 <= i < es.len() ==> es[i].0 != g {
            assert forall|i: int| 0 <= i < es.drop_last().len() implies es.drop_last()[i].0 != g by {
                assert(es.drop_last()[i] == es[i]);
            }
        }
    }
}

/// A category that `lookup` finds belongs to an entry for `g`.
proof fn lemma_lookup_found(es: Seq<(Seq<char>, PlayerCategory)>, g: Seq<char>)
    ensures
        lookup(es, g) is Some ==> exists|i: int| 0 <= i < es.len() && #[trigger] es[i] == (g, lookup(es, g)->0),
    decreases es.len(),
{
    if es.len() > 0 && es.last().0 != g {
        lemma_lookup_found(es.drop_last(), g);
        if lookup(es, g) is Some {
            let i = choose|i: int| 0 <= i < es.drop_last().len() && #[trigger] es.drop_last()[i] == (g, lookup(es, g)->0);
            assert(es[i] == es.drop_last()[i]);
        }
    } else if es.len() > 0 {
        assert(es[es.len() - 1] == (g, lookup(es, g)->0));
    }
}

/// The GUID of every entry is distinct and no entry is `NoCategory`.
pub open spec fn entries_wf(es: Seq<(Seq<char>, PlayerCategory)>) -> bool {
    &&& forall|i: int| 0 <= i < es.len() ==> es[i].1 != PlayerCategory::NoCategory
    &&& forall|i: int, j: int| 0 <= i < j < es.len() ==> es[i].0 != es[j].0
}

/// The database: four category names and the category of each known player.
pub struct PlayerDb {
    names: Vec<String>,
    entries: Vec<(String, PlayerCategory)>,
}

impl PlayerDb {
    /// Four names, distinct GUIDs, no entry of category `NoCategory`.
    pub closed spec fn wf(&self) -> bool {
        &&& self.names@.len() == 4
        &&& entries_wf(self.entries_view())
    }

    /// The four category names.
    pub closed spec fn names_view(&self) -> Seq<Seq<char>> {
        self.names@.map_values(|s: String| s@)
    }

    /// The entries in the order in which `save` writes them.
    pub closed spec fn entries_view(&self) -> Seq<(Seq<char>, PlayerCategory)> {
        self.entries@.map_values(|e: (String, PlayerCategory)| (e.0@, e.1))
    }

    /// The category of each known player.
    pub open spec fn players(&self) -> Map<Seq<char>, PlayerCategory> {
        entries_map(self.entries_view())
    }

    /// An empty database with the default names `"Cat 1"` .. `"Cat 4"`.
    pub fn new() -> (res: PlayerDb)
        ensures
            res.wf(),
            res.names_view() == seq![cat_label('1'), cat_label('2'), cat_label('3'), cat_label('4')],
            res.players() == Map::<Seq<char>, PlayerCategory>::empty(),
    {
        let mut names: Vec<String> = Vec::new();
        names.push(String::from_str(PlayerCategory::Category1.name()));
        names.push(String::from_str(PlayerCategory::Category2.name()));
        names.push(String::from_str(PlayerCategory::Category3.name()));
        names.push(String::from_str(PlayerCategory::Category4.name()));
        let res = PlayerDb { names, entries: Vec::new() };
        assert(res.names_view() =~= seq![cat_label('1'), cat_label('2'), cat_label('3'), cat_label('4')]);
        assert(res.players() =~= Map::<Seq<char>, PlayerCategory>::empty());
        res
    }

    /// Index of the entry for `g`, if any.
    fn position(&self, g: &String) -> (res: Option<usize>)
        requires
            self.wf(),
        ensures
            match res {
                Some(i) => i < self.entries_view().len() && self.entries_view()[i as int].0 == g@,
                None => forall|i: int| 0 <= i < self.entries_view().len() ==> self.entries_view()[i].0 != g@,
            },
    {
        let mut i: usize = 0;
        while i < self.entries.len()
            invariant
                i <= self.entries@.len(),
                forall|k: int| 0 <= k < i ==> self.entries_view()[k].0 != g@,
            decreases self.entries@.len() - i,
        {
            if self.entries[i].0 == *g {
                return Some(i);
            }
            i = i + 1;
        }
        None
    }

    /// Sets the category of `g` to `c` (not `NoCategory`), keeping the place of an
    /// existing entry.
    fn put(&mut self, g: String, c: PlayerCategory)
        requires
            old(self).wf(),
            c != PlayerCategory::NoCategory,
        ensures
            final(self).wf(),
            final(self).names_view() == old(self).names_view(),
            final(self).players() == old(self).players().insert(g@, c),
    {
        let ghost old_es = self.entries_view();
        match self.position(&g) {
            Some(i) => {
                let ghost gv = g@;
                self.entries.set(i, (g, c));
                let ghost es = self.entries_view();
                assert(es =~= old_es.update(i as int, (gv, c)));
                proof {
                    assert forall|k: Seq<char>| #[trigger] lookup(es, k) == old(self).players().insert(gv, c).get(k) by {
                        lemma_lookup(es, k);
                        lemma_lookup(old_es, k);
                        if k == gv {
                            assert(es[i as int] == (gv, c));
                            assert forall|j: int| i < j < es.len() implies es[j].0 != k by {
                                assert(old_es[j].0 != old_es[i as int].0);
                            }
                            assert(lookup(es, k) == Some(c));
                            assert(old(self).players().insert(gv, c).get(k) == Some(c));
                        } else {
                            if exists|m: int| 0 <= m < es.len() && es[m].0 == k {
                                let m = choose|m: int| 0 <= m < es.len() && es[m].0 == k;
                                assert(m != i);
                                assert(old_es[m] == es[m]);
                                assert forall|j: int| m < j < es.len() implies es[j].0 != k by {
                                    assert(old_es[j].0 != old_es[m].0);
                                }
                                assert forall|j: int| m < j < old_es.len() implies old_es[j].0 != k by {
                                    assert(old_es[j].0 != old_es[m].0);
                                }
                                assert(lookup(old_es, k) == Some(old_es[m].1));
                            } else {
                                assert forall|m: int| 0 <= m < old_es.len() implies old_es[m].0 != k by {
                                    if m != i {
                                        assert(old_es[m] == es[m]);
                                    }
                                }
                            }
                            assert(lookup(es, k) == lookup(old_es, k));
                            assert(old(self).players().insert(gv, c).get(k) == old(self).players().get(k));
                            assert(old(self).players().get(k) == lookup(old_es, k));
                        }
                    }
                    assert(self.players() =~= old(self).players().insert(gv, c));
                }
            },
            None => {
                let ghost gv = g@;
                self.entries.push((g, c));
                let ghost es = self.entries_view();
                assert(es =~= old_es.push((gv, c)));
                proof {
                    assert forall|k: Seq<char>| #[trigger] lookup(es, k) == old(self).players().insert(gv, c).get(k) by {
                        assert(es.drop_last() == old_es);
                    }
                    assert(self.players() =~= old(self).players().insert(gv, c));
                }
            },
        }
    }

    /// Forgets `g`.
    fn forget(&mut self, g: &String)
        requires
            old(self).wf(),
        ensures
            final(self).wf(),
            final(self).names_view() == old(self).names_view(),
            final(self).players() == old(self).players().remove(g@),
    {
        let ghost old_es = self.entries_view();
        match self.position(g) {
            Some(i) => {
                self.entries.remove(i);
                let ghost es = self.entries_view();
                assert(es =~= old_es.remove(i as int));
                proof {
                    assert forall|k: Seq<char>| #[trigger] lookup(es, k) == old(self).players().remove(g@).get(k) by {
                        lemma_lookup(es, k);
                        lemma_lookup(old_es, k);
                        if k == g@ {
                            assert forall|m: int| 0 <= m < es.len() implies es[m].0 != k by {
                                if m < i {
                                    assert(old_es[m].0 != old_es[i as int].0);
                                } else {
                                    assert(es[m] == old_es[m + 1]);
                                    assert(old_es[m + 1].0 != old_es[i as int].0);
                                }
                            }
                        } else {
                            if exists|m: int| 0 <= m < old_es.len() && old_es[m].0 == k {
                                let m = choose|m: int| 0 <= m < old_es.len() && old_es[m].0 == k;
                                assert(m != i);
                                assert forall|j: int| m < j < old_es.len() implies old_es[j].0 != k by {
                                    assert(old_es[j].0 != old_es[m].0);
                                }
                                let m2 = if m < i { m } else { m - 1 };
                                assert(es[m2] == old_es[m]);
                                assert forall|j: int| m2 < j < es.len() implies es[j].0 != k by {
                                    if j < i {
                                        assert(es[j] == old_es[j]);
                                    } else {
                                        assert(es[j] == old_es[j + 1]);
                                    }
                                }
                            } else {
                                assert forall|m: int| 0 <= m < es.len() implies es[m].0 != k by {
                                    if m < i {
                                        assert(es[m] == old_es[m]);
                                    } else {
                                        assert(es[m] == old_es[m + 1]);
                                    }
                                }
                            }
                        }
                    }
                    assert(self.players() =~= old(self).players().remove(g@));
                }
            },
            None => {
                proof {
                    assert forall|k: Seq<char>| #[trigger] lookup(old_es, k) == old(self).players().remove(g@).get(k) by {
                        lemma_lookup(old_es, k);
                    }
                    assert(self.players() =~= old(self).players().remove(g@));
                }
            },
        }
    }
}

/// Every player in a well-formed database has one of the four categories.
pub proof fn lemma_players_categorized(db: &PlayerDb)
    requires
        db.wf(),
    ensures
        forall|g: Seq<char>| #[trigger] db.players().contains_key(g) ==> db.players()[g] != PlayerCategory::NoCategory,
{
    assert forall|g: Seq<char>| #[trigger] db.players().contains_key(g) implies db.players()[g] != PlayerCategory::NoCategory by {
        lemma_lookup_found(db.entries_view(), g);
    }
}

/// The category of `g` in `m`; `NoCategory` for a player not in `m`.
pub open spec fn category_of(m: Map<Seq<char>, PlayerCategory>, g: Seq<char>) -> PlayerCategory {
    if m.contains_key(g) {
        m[g]
    } else {
        PlayerCategory::NoCategory
    }
}

/// `m` with `g` put in `c`; `NoCategory` removes `g`.
pub open spec fn with_category(m: Map<Seq<char>, PlayerCategory>, g: Seq<char>, c: PlayerCategory) -> Map<Seq<char>, PlayerCategory> {
    if c == PlayerCategory::NoCategory {
        m.remove(g)
    } else {
        m.insert(g, c)
    }
}

/// After putting a player in a category, the player's category is that
/// category (no category after removal), and every other player's category
/// is unchanged.
pub proof fn lemma_get_after_set(m: Map<Seq<char>, PlayerCategory>, g: Seq<char>, c: PlayerCategory, other: Seq<char>)
    ensures
        category_of(with_category(m, g, c), g) == c,
        other != g ==> category_of(with_category(m, g, c), other) == category_of(m, other),
{
}

/// Cycling through the categories returns to the start after five steps and
/// passes through every category.
pub proof fn lemma_next_cycles(c: PlayerCategory)
    ensures
        c.spec_next().spec_next().spec_next().spec_next().spec_next() == c,
        c.spec_next() != c,
{
}

/// A category's fixed name reads back as the category.
pub proof fn lemma_name_reads_back(c: PlayerCategory)
    ensures
        category_named(c.label()) == c,
{
    if c != PlayerCategory::NoCategory {
        lemma_category_named(c);
    } else {
        assert(none_label()[0] != cat_label('1')[0]);
    }
}

/// The category of the player `guid`; `NoCategory` for a player not in the database.
pub fn get(db: &PlayerDb, guid: &str) -> (res: PlayerCategory)
    requires
        db.wf(),
    ensures
        res == category_of(db.players(), guid@),
{
    let g = String::from_str(guid);
    let ghost es = db.entries_view();
    proof {
        lemma_lookup(es, guid@);
    }
    match db.position(&g) {
        Some(i) => {
            proof {
                assert forall|j: int| i < j < es.len() implies es[j].0 != guid@ by {
                    assert(es[j].0 != es[i as int].0);
                }
            }
            db.entries[i].1
        },
        None => PlayerCategory::NoCategory,
    }
}

/// Puts the player `guid` in `category`; `NoCategory` removes the player.
pub fn set(db: &mut PlayerDb, guid: &str, category: PlayerCategory)
    requires
        old(db).wf(),
    ensures
        final(db).wf(),
        final(db).names_view() == old(db).names_view(),
        final(db).players() == with_category(old(db).players(), guid@, category),
{
    let g = String::from_str(guid);
    if category == PlayerCategory::NoCategory {
        db.forget(&g);
    } else {
        db.put(g, category);
    }
}

/// The four category names.
pub fn get_names(db: &PlayerDb) -> (res: [String; 4])
    requires
        db.wf(),
    ensures
        res@.map_values(|s: String| s@) == db.names_view(),
{
    let res = [db.names[0].clone(), db.names[1].clone(), db.names[2].clone(), db.names[3].clone()];
    assert(res@.map_values(|s: String| s@) =~= db.names_view());
    res
}

/// Renames the category of slot `index`; an index past the four slots is
/// ignored.
pub fn set_name(db: &mut PlayerDb, index: usize, name: &str)
    requires
        old(db).wf(),
    ensures
        final(db).wf(),
        final(db).players() == old(db).players(),
        final(db).names_view() == (if index < 4 {
            old(db).names_view().update(index as int, name@)
        } else {
            old(db).names_view()
        }),
{
    if index < 4 {
        db.names.set(index, String::from_str(name));
        assert(db.names_view() =~= old(db).names_view().update(index as int, name@));
    }
}


/// The slot that the header key `cat1` .. `cat4` names, or -1.
pub open spec fn header_slot(k: Seq<char>) -> int {
    if k == seq!['c', 'a', 't', '1'] {
        0
    } else if k == seq!['c', 'a', 't', '2'] {
        1
    } else if k == seq!['c', 'a', 't', '3'] {
        2
    } else if k == seq!['c', 'a', 't', '4'] {
        3
    } else {
        -1
    }
}

/// A header line `#catN=name` of the stored database, once trimmed: the slot
/// and the name it gives.
pub open spec fn header_of(line: Seq<char>) -> Option<(int, Seq<char>)> {
    let t = trim(line);
    if t.len() > 0 && t[0] == '#' {
        match split_once(t.drop_first(), '=') {
            Some((k, v)) => if header_slot(k) >= 0 {
                Some((header_slot(k), v))
            } else {
                None
            },
            None => None,
        }
    } else {
        None
    }
}

/// An entry line `guid|Cat N` of the stored database, once trimmed: the GUID
/// and its category. Lines starting with `'#'`, lines without `'|'` and lines
/// whose category is not one of the fixed names give nothing.
pub open spec fn entry_of(line: Seq<char>) -> Option<(Seq<char>, PlayerCategory)> {
    let t = trim(line);
    if t.len() == 0 || t[0] == '#' {
        None
    } else {
        match split_once(t, '|') {
            Some((g, c)) => if category_named(c) != PlayerCategory::NoCategory {
                Some((g, category_named(c)))
            } else {
                None
            },
            None => None,
        }
    }
}

/// The category names after reading the header lines of `ls` in order,
/// starting from `names`.
pub open spec fn loaded_names(names: Seq<Seq<char>>, ls: Seq<Seq<char>>) -> Seq<Seq<char>>
    decreases ls.len(),
{
    if ls.len() == 0 {
        names
    } else {
        let before = loaded_names(names, ls.drop_last());
        match header_of(ls.last()) {
            Some((i, v)) => before.update(i, v),
            None => before,
        }
    }
}

/// The entries that the entry lines of `ls` give, in order.
pub open spec fn loaded_entries(ls: Seq<Seq<char>>) -> Seq<(Seq<char>, PlayerCategory)>
    decreases ls.len(),
{
    if ls.len() == 0 {
        seq![]
    } else {
        let before = loaded_entries(ls.drop_last());
        match entry_of(ls.last()) {
            Some(e) => before.push(e),
            None => before,
        }
    }
}

/// The stored line for category name slot `i`: `#cat{i+1}={name}`.
pub open spec fn header_line(i: int, name: Seq<char>) -> Seq<char> {
    seq!['#', 'c', 'a', 't', seq!['1', '2', '3', '4'][i], '='] + name
}

/// The stored line for an entry: `{guid}|{category name}`.
pub open spec fn entry_line(e: (Seq<char>, PlayerCategory)) -> Seq<char> {
    e.0 + seq!['|'] + e.1.label()
}

/// The lines of the stored database: the four headers, then one line per entry.
pub open spec fn saved_lines(names: Seq<Seq<char>>, es: Seq<(Seq<char>, PlayerCategory)>) -> Seq<Seq<char>> {
    Seq::new(4, |i: int| header_line(i, names[i])) + es.map_values(|e: (Seq<char>, PlayerCategory)| entry_line(e))
}

/// The stored database text, each line ended by `'\n'`.
pub open spec fn saved_text(names: Seq<Seq<char>>, es: Seq<(Seq<char>, PlayerCategory)>) -> Seq<char> {
    concat_nl(saved_lines(names, es))
}

fn header_slot_of(k: &[char]) -> (res: i32)
    ensures
        res == header_slot(k@),
{
    if k.len() == 4 && k[0] == 'c' && k[1] == 'a' && k[2] == 't' {
        let d = k[3];
        assert(k@ == seq!['c', 'a', 't', d]);
        if d == '1' {
            0
        } else if d == '2' {
            1
        } else if d == '3' {
            2
        } else if d == '4' {
            3
        } else {
            -1
        }
    } else {
        -1
    }
}

fn trimmed(line: &[char]) -> (res: Vec<char>)
    ensures
        res@ == trim(line@),
{
    let (a, b) = trim_bounds(line);
    slice_range(line, a, b)
}

/// The header that `line` holds, if any.
fn header_of_line(line: &[char]) -> (res: Option<(usize, Vec<char>)>)
    ensures
        match res {
            Some((i, v)) => header_of(line@) == Some((i as int, v@)) && i < 4,
            None => header_of(line@) is None,
        },
{
    let t = trimmed(line);
    if t.len() > 0 && t[0] == '#' {
        let rest = slice_range(t.as_slice(), 1, t.len());
        assert(rest@ == t@.drop_first());
        let k = find_char(rest.as_slice(), '=');
        if k < rest.len() {
            let key = slice_range(rest.as_slice(), 0, k);
            let val = slice_range(rest.as_slice(), k + 1, rest.len());
            let slot = header_slot_of(key.as_slice());
            if slot >= 0 {
                return Some((slot as usize, val));
            }
        }
    }
    None
}

/// The entry that `line` holds, if any.
fn entry_of_line(line: &[char]) -> (res: Option<(Vec<char>, PlayerCategory)>)
    ensures
        match res {
            Some((g, c)) => entry_of(line@) == Some((g@, c)),
            None => entry_of(line@) is None,
        },
{
    let t = trimmed(line);
    if t.len() == 0 || t[0] == '#' {
        return None;
    }
    let k = find_char(t.as_slice(), '|');
    if k < t.len() {
        let g = slice_range(t.as_slice(), 0, k);
        let c = slice_range(t.as_slice(), k + 1, t.len());
        let cat = category_of_chars(c.as_slice());
        if cat != PlayerCategory::NoCategory {
            return Some((g, cat));
        }
    }
    None
}

/// Reads the stored database text `contents`: each header line renames its
/// slot (slots without a header keep their names), and the entries are
/// replaced by those of the entry lines, a later line for the same GUID
/// overriding an earlier one.
pub fn load(db: &mut PlayerDb, contents: &str)
    requires
        old(db).wf(),
    ensures
        final(db).wf(),
        final(db).names_view() == loaded_names(old(db).names_view(), lines(contents@)),
        final(db).players() == entries_map(loaded_entries(lines(contents@))),
{
    let chars = chars_of(contents);
    let ls = lines_of(chars.as_slice());
    let ghost lv = views(ls@);
    let mut i: usize = 0;
    while i < ls.len()
        invariant
            i <= ls@.len(),
            lv == views(ls@),
            lv == lines(contents@),
            db.wf(),
            db.names_view() == loaded_names(old(db).names_view(), lv.take(i as int)),
        decreases ls@.len() - i,
    {
        assert(lv.take(i + 1).drop_last() == lv.take(i as int));
        assert(lv.take(i + 1).last() == ls@[i as int]@);
        match header_of_line(ls[i].as_slice()) {
            Some((slot, v)) => {
                db.names.set(slot, string_of(v.as_slice()));
                assert(db.names_view() =~= loaded_names(old(db).names_view(), lv.take(i + 1)));
            },
            None => {},
        }
        i = i + 1;
    }
    assert(lv.take(ls@.len() as int) == lv);
    db.entries.clear();
    proof {
        assert(db.players() =~= entries_map(loaded_entries(lv.take(0))));
    }
    let mut j: usize = 0;
    while j < ls.len()
        invariant
            j <= ls@.len(),
            lv == views(ls@),
            lv == lines(contents@),
            db.wf(),
            db.names_view() == loaded_names(old(db).names_view(), lv),
            db.players() == entries_map(loaded_entries(lv.take(j as int))),
        decreases ls@.len() - j,
    {
        assert(lv.take(j + 1).drop_last() == lv.take(j as int));
        assert(lv.take(j + 1).last() == ls@[j as int]@);
        match entry_of_line(ls[j].as_slice()) {
            Some((g, c)) => {
                let ghost before = loaded_entries(lv.take(j as int));
                let ghost gv = g@;
                db.put(string_of(g.as_slice()), c);
                proof {
                    let after = loaded_entries(lv.take(j + 1));
                    assert(after == before.push((gv, c)));
                    assert forall|k: Seq<char>| #[trigger] lookup(after, k) == entries_map(before).insert(gv, c).get(k) by {
                        assert(after.drop_last() == before);
                    }
                    assert(entries_map(after) =~= entries_map(before).insert(gv, c));
                }
            },
            None => {},
        }
        j = j + 1;
    }
    assert(lv.take(ls@.len() as int) == lv);
}

/// The stored database text: `#cat1={name}` .. `#cat4={name}`, then
/// `{guid}|{category name}` for each entry, every line ended by `'\n'`.
pub fn save(db: &PlayerDb) -> (res: String)
    requires
        db.wf(),
    ensures
        res@ == saved_text(db.names_view(), db.entries_view()),
{
    let ghost ls = saved_lines(db.names_view(), db.entries_view());
    let mut out: Vec<char> = Vec::new();
    let mut i: usize = 0;
    assert(ls.take(0) == Seq::<Seq<char>>::empty());
    while i < 4
        invariant
            i <= 4,
            db.wf(),
            ls == saved_lines(db.names_view(), db.entries_view()),
            out@ == concat_nl(ls.take(i as int)),
        decreases 4 - i,
    {
        let d: char = if i == 0 { '1' } else if i == 1 { '2' } else if i == 2 { '3' } else { '4' };
        let ghost before = out@;
        out.push('#');
        out.push('c');
        out.push('a');
        out.push('t');
        out.push(d);
        out.push('=');
        let name = chars_of(db.names[i].as_str());
        push_all(&mut out, name.as_slice());
        out.push('\n');
        proof {
            assert(db.names_view()[i as int] == name@);
            assert(ls[i as int] == header_line(i as int, name@));
            assert(ls.take(i + 1) == ls.take(i as int).push(ls[i as int]));
            lemma_concat_nl_push(ls.take(i as int), ls[i as int]);
            assert(out@ =~= before + header_line(i as int, name@) + seq!['\n']);
        }
        i = i + 1;
    }
    let mut j: usize = 0;
    while j < db.entries.len()
        invariant
            j <= db.entries@.len(),
            db.wf(),
            ls == saved_lines(db.names_view(), db.entries_view()),
            out@ == concat_nl(ls.take(4 + j)),
        decreases db.entries@.len() - j,
    {
        let ghost before = out@;
        let g = chars_of(db.entries[j].0.as_str());
        let label = chars_of(db.entries[j].1.name());
        push_all(&mut out, g.as_slice());
        out.push('|');
        push_all(&mut out, label.as_slice());
        out.push('\n');
        proof {
            let e = db.entries_view()[j as int];
            assert(e == (g@, db.entries@[j as int].1));
            assert(ls[4 + j] == entry_line(e));
            assert(ls.take(4 + j + 1) == ls.take(4 + j).push(ls[4 + j]));
            lemma_concat_nl_push(ls.take(4 + j), ls[4 + j]);
            assert(out@ =~= before + entry_line(e) + seq!['\n']);
        }
        j = j + 1;
    }
    assert(ls.take(4 + db.entries@.len() as int) == ls);
    string_of(out.as_slice())
}


/// A database whose stored text reads back as the same database: names
/// without `'\n'` or trailing whitespace, and GUIDs without `'\n'` or `'|'`
/// that neither start with whitespace nor with `'#'`.
pub open spec fn storable(names: Seq<Seq<char>>, es: Seq<(Seq<char>, PlayerCategory)>) -> bool {
    &&& names.len() == 4
    &&& forall|i: int| 0 <= i < 4 ==> lacks(#[trigger] names[i], '\n')
        && (names[i].len() == 0 || !is_ws(names[i].last()))
    &&& forall|i: int| 0 <= i < es.len() ==> lacks((#[trigger] es[i]).0, '\n') && lacks(es[i].0, '|')
        && (es[i].0.len() == 0 || (!is_ws(es[i].0[0]) && es[i].0[0] != '#'))
    &&& entries_wf(es)
}

/// A GUID that a stored line reads back: no `'\n'` or `'|'`, and not
/// starting with whitespace or `'#'`.
pub open spec fn storable_guid(g: Seq<char>) -> bool {
    lacks(g, '\n') && lacks(g, '|') && (g.len() == 0 || (!is_ws(g[0]) && g[0] != '#'))
}

/// Category names and players whose stored text reads back: names without
/// `'\n'` or trailing whitespace, and storable GUIDs.
pub open spec fn storable_db(names: Seq<Seq<char>>, players: Map<Seq<char>, PlayerCategory>) -> bool {
    &&& forall|i: int| 0 <= i < names.len() ==> lacks(#[trigger] names[i], '\n')
        && (names[i].len() == 0 || !is_ws(names[i].last()))
    &&& forall|g: Seq<char>| #[trigger] players.contains_key(g) ==> storable_guid(g)
}

proof fn lemma_storable(db: &PlayerDb)
    requires
        db.wf(),
        storable_db(db.names_view(), db.players()),
    ensures
        storable(db.names_view(), db.entries_view()),
{
    let es = db.entries_view();
    assert forall|i: int| 0 <= i < es.len() implies lacks((#[trigger] es[i]).0, '\n') && lacks(es[i].0, '|')
        && (es[i].0.len() == 0 || (!is_ws(es[i].0[0]) && es[i].0[0] != '#')) by {
        lemma_lookup(es, es[i].0);
        assert forall|j: int| i < j < es.len() implies es[j].0 != es[i].0 by {
            assert(es[i].0 != es[j].0);
        }
        assert(db.players().contains_key(es[i].0));
        assert(storable_guid(es[i].0));
    }
    assert forall|i: int| 0 <= i < 4 implies lacks(#[trigger] db.names_view()[i], '\n')
        && (db.names_view()[i].len() == 0 || !is_ws(db.names_view()[i].last())) by {
        assert(0 <= i < db.names_view().len());
    }
}

proof fn lemma_category_named(c: PlayerCategory)
    requires
        c != PlayerCategory::NoCategory,
    ensures
        category_named(c.label()) == c,
        c.label().len() == 5,
        !is_ws(c.label()[0]) && !is_ws(c.label()[4]) && c.label()[0] != '#' && c.label()[4] != '\r',
        lacks(c.label(), '\n') && lacks(c.label(), '|'),
{
    let l = c.label();
    assert(l[4] != cat_label('1')[4] ==> l != cat_label('1'));
    assert(l[4] != cat_label('2')[4] ==> l != cat_label('2'));
    assert(l[4] != cat_label('3')[4] ==> l != cat_label('3'));
}

proof fn lemma_header_line(i: int, n: Seq<char>)
    requires
        0 <= i < 4,
        lacks(n, '\n'),
        n.len() == 0 || !is_ws(n.last()),
    ensures
        header_of(header_line(i, n)) == Some((i, n)),
        entry_of(header_line(i, n)) is None,
        plain_line(header_line(i, n)),
{
    let l = header_line(i, n);
    let d = seq!['1', '2', '3', '4'][i];
    lemma_trim_id(l);
    let x = l.drop_first();
    assert(x == seq!['c', 'a', 't', d, '='] + n);
    lemma_find_is(x, '=', 4);
    assert(x.subrange(0, 4) == seq!['c', 'a', 't', d]);
    assert(x.subrange(5, x.len() as int) == n);
    assert forall|j: int| 0 <= j < l.len() implies l[j] != '\n' by {
        if j >= 6 {
            assert(l[j] == n[j - 6]);
        }
    }
}

proof fn lemma_entry_line(e: (Seq<char>, PlayerCategory))
    requires
        e.1 != PlayerCategory::NoCategory,
        lacks(e.0, '\n'),
        lacks(e.0, '|'),
        e.0.len() == 0 || (!is_ws(e.0[0]) && e.0[0] != '#'),
    ensures
        entry_of(entry_line(e)) == Some(e),
        header_of(entry_line(e)) is None,
        plain_line(entry_line(e)),
{
    let l = entry_line(e);
    let g = e.0;
    lemma_category_named(e.1);
    assert(l.last() == e.1.label()[4]);
    lemma_trim_id(l);
    assert forall|j: int| 0 <= j < g.len() implies l[j] != '|' by {
        assert(l[j] == g[j]);
    }
    assert(l[g.len() as int] == '|');
    lemma_find_is(l, '|', g.len() as int);
    assert(l.subrange(0, g.len() as int) == g);
    assert(l.subrange(g.len() as int + 1, l.len() as int) == e.1.label());
    assert forall|j: int| 0 <= j < l.len() implies l[j] != '\n' by {
        if j < g.len() {
            assert(l[j] == g[j]);
        } else if j > g.len() {
            assert(l[j] == e.1.label()[j - g.len() - 1]);
        }
    }
}

/// Reading back the stored text of a storable database gives its names and
/// its entries, in order, whatever names the reading database had before.
pub proof fn lemma_saved_text_reads_back(
    names: Seq<Seq<char>>,
    es: Seq<(Seq<char>, PlayerCategory)>,
    start: Seq<Seq<char>>,
)
    requires
        storable(names, es),
        start.len() == 4,
    ensures
        loaded_names(start, lines(saved_text(names, es))) == names,
        loaded_entries(lines(saved_text(names, es))) == es,
{
    let ls = saved_lines(names, es);
    assert forall|k: int| 0 <= k < ls.len() implies plain_line(#[trigger] ls[k]) by {
        if k < 4 {
            lemma_header_line(k, names[k]);
        } else {
            assert(ls[k] == entry_line(es[k - 4]));
            lemma_entry_line(es[k - 4]);
        }
    }
    lemma_lines_concat_nl(ls);
    lemma_saved_prefix(names, es, start, ls.len() as int);
    assert(ls.take(ls.len() as int) == ls);
    assert(es.take(es.len() as int) == es);
}

proof fn lemma_saved_prefix(
    names: Seq<Seq<char>>,
    es: Seq<(Seq<char>, PlayerCategory)>,
    start: Seq<Seq<char>>,
    k: int,
)
    requires
        storable(names, es),
        start.len() == 4,
        0 <= k <= 4 + es.len(),
    ensures
        loaded_names(start, saved_lines(names, es).take(k))
            == Seq::new(4, |i: int| if i < k { names[i] } else { start[i] }),
        loaded_entries(saved_lines(names, es).take(k)) == (if k <= 4 { seq![] } else { es.take(k - 4) }),
    decreases k,
{
    let ls = saved_lines(names, es);
    if k == 0 {
        assert(ls.take(0) == Seq::<Seq<char>>::empty());
        assert(Seq::new(4, |i: int| if i < k { names[i] } else { start[i] }) =~= start);
    } else {
        lemma_saved_prefix(names, es, start, k - 1);
        assert(ls.take(k).drop_last() == ls.take(k - 1));
        assert(ls.take(k).last() == ls[k - 1]);
        if k - 1 < 4 {
            lemma_header_line(k - 1, names[k - 1]);
            assert(Seq::new(4, |i: int| if i < k - 1 { names[i] } else { start[i] }).update(k - 1, names[k - 1])
                =~= Seq::new(4, |i: int| if i < k { names[i] } else { start[i] }));
        } else {
            assert(ls[k - 1] == entry_line(es[k - 5]));
            lemma_entry_line(es[k - 5]);
            assert(Seq::new(4, |i: int| if i < k - 1 { names[i] } else { start[i] })
                =~= Seq::new(4, |i: int| if i < k { names[i] } else { start[i] }));
            if k - 1 == 4 {
                assert(es.take(1) =~= seq![es[0]]);
            } else {
                assert(es.take(k - 4) =~= es.take(k - 5).push(es[k - 5]));
            }
        }
    }
}

/// The stored text of a storable database, read into any database, restores
/// its names and the category of every player.
pub proof fn lemma_save_then_load(db: &PlayerDb, other: &PlayerDb)
    requires
        db.wf(),
        other.wf(),
        storable_db(db.names_view(), db.players()),
    ensures
        loaded_names(other.names_view(), lines(saved_text(db.names_view(), db.entries_view()))) == db.names_view(),
        entries_map(loaded_entries(lines(saved_text(db.names_view(), db.entries_view())))) == db.players(),
{
    lemma_storable(db);
    lemma_saved_text_reads_back(db.names_view(), db.entries_view(), other.names_view());
    assert(Seq::new(4, |i: int| if i < 4 + db.entries_view().len() { db.names_view()[i] } else { other.names_view()[i] })
        =~= db.names_view());
}

} // verus!
