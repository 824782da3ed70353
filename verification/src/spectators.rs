//! The spectator list: who is watching the local player (or the player the
//! local player watches while dead), and through which camera.
use vstd::prelude::*;

use crate::config::Config;
use crate::menu::c_string_field;
use crate::menu_state::buffer_name;
use crate::text::{chars_of, push_all, string_of};

verus! {

/// The name of an observer mode as the engine numbers them.
pub open spec fn observer_mode_name(mode: i32) -> Seq<char> {
    if mode == 1 {
        seq!['D', 'e', 'a', 't', 'h', 'c', 'a', 'm']
    } else if mode == 2 {
        seq!['F', 'r', 'e', 'e', 'c', 'a', 'm']
    } else if mode == 3 {
        seq!['F', 'i', 'x', 'e', 'd']
    } else if mode == 4 {
        seq!['F', 'i', 'r', 's', 't', 'p', 'e', 'r', 's', 'o', 'n']
    } else if mode == 5 {
        seq!['T', 'h', 'i', 'r', 'd', 'p', 'e', 'r', 's', 'o', 'n']
    } else if mode == 6 {
        seq!['P', 'o', 'i', 'n', 't', ' ', 'o', 'f', ' ', 'I', 'n', 't', 'e', 'r', 'e', 's', 't']
    } else if mode == 7 {
        seq!['R', 'o', 'a', 'm', 'i', 'n', 'g']
    } else {
        seq!['U', 'n', 'k', 'n', 'o', 'w', 'n']
    }
}

/// The name of an observer mode.
pub fn observer_mode_label(mode: i32) -> (res: &'static str)
    ensures
        res@ == observer_mode_name(mode),
{
    proof {
        reveal_strlit("Deathcam");
        reveal_strlit("Freecam");
        reveal_strlit("Fixed");
        reveal_strlit("Firstperson");
        reveal_strlit("Thirdperson");
        reveal_strlit("Point of Interest");
        reveal_strlit("Roaming");
        reveal_strlit("Unknown");
    }
    if mode == 1 {
        "Deathcam"
    } else if mode == 2 {
        "Freecam"
    } else if mode == 3 {
        "Fixed"
    } else if mode == 4 {
        "Firstperson"
    } else if mode == 5 {
        "Thirdperson"
    } else if mode == 6 {
        "Point of Interest"
    } else if mode == 7 {
        "Roaming"
    } else {
        "Unknown"
    }
}

/// What the engine tells of one client slot.
pub struct Spectator {
    /// The entity index of the slot's player.
    pub index: i32,
    pub dormant: bool,
    pub dead: bool,
    /// The engine's number of the player's camera mode.
    pub observer_mode: i32,
    /// The entity index of the player that this one watches, if any.
    pub observer_target: Option<i32>,
    /// The NUL-padded name buffer.
    pub name: Vec<u8>,
}

/// One line of the list: its text, and whether it is drawn in red (a
/// spectator that sees through the watched player's eyes).
#[derive(Debug, PartialEq, Eq)]
pub struct SpectatorLine {
    pub text: String,
    pub first_person: bool,
}

/// Whether `s` is a dead player, other than `watched`, whose camera follows
/// `watched`.
pub open spec fn watches(s: Spectator, watched: i32) -> bool {
    &&& !s.dormant
    &&& s.index != watched
    &&& s.dead
    &&& s.observer_target == Some(watched)
}

/// `"[{mode}] {name}"`.
pub open spec fn line_text(s: Spectator) -> Seq<char> {
    seq!['['] + observer_mode_name(s.observer_mode) + seq![']', ' '] + buffer_name(s.name@)
}

/// The lines for the slots `ss` watching `watched`, in slot order.
pub open spec fn spectator_lines_of(ss: Seq<Spectator>, watched: i32) -> Seq<(Seq<char>, bool)>
    decreases ss.len(),
{
    if ss.len() == 0 {
        Seq::empty()
    } else {
        let rest = spectator_lines_of(ss.drop_last(), watched);
        if watches(ss.last(), watched) {
            rest.push((line_text(ss.last()), ss.last().observer_mode == 4))
        } else {
            rest
        }
    }
}

/// The views of the lines.
pub open spec fn line_views(ls: Seq<SpectatorLine>) -> Seq<(Seq<char>, bool)> {
    ls.map_values(|l: SpectatorLine| (l.text@, l.first_person))
}

/// The lines of the spectator list: none when the list is switched off or
/// nobody is watched; else one for each slot that watches `watched`.
pub fn spectator_lines(config: &Config, watched: Option<i32>, slots: &Vec<Spectator>) -> (res: Vec<SpectatorLine>)
    ensures
        line_views(res@) == (match watched {
            Some(w) if config.spectator_list => spectator_lines_of(slots@, w),
            _ => Seq::<(Seq<char>, bool)>::empty(),
        }),
{
    let mut res: Vec<SpectatorLine> = Vec::new();
    if !config.spectator_list {
        assert(line_views(res@) =~= Seq::<(Seq<char>, bool)>::empty());
        return res;
    }
    let w = match watched {
        Some(w) => w,
        None => {
            assert(line_views(res@) =~= Seq::<(Seq<char>, bool)>::empty());
            return res;
        },
    };
    let mut i: usize = 0;
    while i < slots.len()
        invariant
            i <= slots@.len(),
            line_views(res@) == spectator_lines_of(slots@.take(i as int), w),
        decreases slots@.len() - i,
    {
        assert(slots@.take(i + 1).drop_last() == slots@.take(i as int));
        assert(slots@.take(i + 1).last() == slots@[i as int]);
        let s = &slots[i];
        let follows = match s.observer_target {
            Some(t) => t == w,
            None => false,
        };
        if !s.dormant && s.index != w && s.dead && follows {
            proof {
                reveal_strlit("[");
                reveal_strlit("] ");
            }
            let mut text = chars_of("[");
            let mode = chars_of(observer_mode_label(s.observer_mode));
            push_all(&mut text, mode.as_slice());
            let sep = chars_of("] ");
            push_all(&mut text, sep.as_slice());
            let name = chars_of(c_string_field(s.name.as_slice()).as_str());
            push_all(&mut text, name.as_slice());
            assert(text@ == line_text(slots@[i as int]));
            let ghost before = res@;
            res.push(SpectatorLine { text: string_of(text.as_slice()), first_person: s.observer_mode == 4 });
            assert(line_views(res@) == line_views(before).push((res@.last().text@, res@.last().first_person)));
        } else {
            assert(!watches(slots@[i as int], w));
        }
        i = i + 1;
    }
    assert(slots@.take(slots@.len() as int) == slots@);
    res
}


/// The line `l` is the line of a slot of `ss` that watches `w` (a dead,
/// non-dormant player other than `w` whose camera follows `w`): it names the
/// slot's camera mode and player, and is red exactly when that camera is
/// first-person (mode 4).
pub open spec fn line_of_watcher(ss: Seq<Spectator>, w: i32, l: (Seq<char>, bool)) -> bool {
    exists|i: int| #![trigger ss[i]] 0 <= i < ss.len()
        && !ss[i].dormant && ss[i].index != w && ss[i].dead && ss[i].observer_target == Some(w)
        && l == (line_text(ss[i]), ss[i].observer_mode == 4)
}

/// Every line of the list is the line of a slot that watches the player,
/// red exactly when that slot's camera is first-person (mode 4); and every
/// slot that watches the player has its line in the list.
pub proof fn lemma_spectator_lines_law(ss: Seq<Spectator>, w: i32)
    ensures
        forall|j: int| 0 <= j < spectator_lines_of(ss, w).len()
            ==> line_of_watcher(ss, w, #[trigger] spectator_lines_of(ss, w)[j]),
        forall|i: int| 0 <= i < ss.len() && !ss[i].dormant && ss[i].index != w && ss[i].dead
            && #[trigger] ss[i].observer_target == Some(w)
            ==> spectator_lines_of(ss, w).contains((line_text(ss[i]), ss[i].observer_mode == 4)),
    decreases ss.len(),
{
    if ss.len() > 0 {
        let pre = ss.drop_last();
        lemma_spectator_lines_law(pre, w);
        let prev = spectator_lines_of(pre, w);
        let cur = spectator_lines_of(ss, w);
        let n = ss.len() - 1;
        assert(ss.last() == ss[n]);
        assert forall|j: int| 0 <= j < cur.len() implies line_of_watcher(ss, w, #[trigger] cur[j]) by {
            if j < prev.len() {
                assert(cur[j] == prev[j]);
                assert(line_of_watcher(pre, w, prev[j]));
                let i = choose|i: int| #![trigger pre[i]] 0 <= i < pre.len() && watches(pre[i], w)
                    && prev[j] == (line_text(pre[i]), pre[i].observer_mode == 4);
                assert(pre[i] == ss[i]);
            } else {
                assert(watches(ss[n], w));
                assert(cur[j] == (line_text(ss[n]), ss[n].observer_mode == 4));
            }
        }
        assert forall|i: int| 0 <= i < ss.len() && !ss[i].dormant && ss[i].index != w && ss[i].dead
            && #[trigger] ss[i].observer_target == Some(w)
            implies cur.contains((line_text(ss[i]), ss[i].observer_mode == 4)) by {
            if i < n {
                assert(pre[i] == ss[i]);
                assert(watches(pre[i], w));
                assert(prev.contains((line_text(pre[i]), pre[i].observer_mode == 4)));
                let j = choose|j: int| 0 <= j < prev.len()
                    && prev[j] == (line_text(pre[i]), pre[i].observer_mode == 4);
                assert(cur[j] == prev[j]);
            } else {
                assert(cur[prev.len() as int] == (line_text(ss[n]), ss[n].observer_mode == 4));
            }
        }
    }
}

} // verus!
