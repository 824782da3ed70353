//! The text that the menu shows: key binding buttons, the header of a
//! multi-select box, names read from fixed-size C buffers, and the layout of
//! the condition color pickers.
use vstd::prelude::*;
use vstd::utf8::{decode_utf8, valid_utf8};

use crate::config::KeyConfig;
use crate::text::{chars_of, decimal, format_u32, format_usize, push_all, string_of};

verus! {

/// `"Press a key..."`.
pub open spec fn press_a_key() -> Seq<char> {
    seq!['P', 'r', 'e', 's', 's', ' ', 'a', ' ', 'k', 'e', 'y', '.', '.', '.']
}

/// The label of a key binding button: `Press a key...` while editing, else
/// `{prefix} key: Mouse {code}` for a mouse button and `{prefix} key: {code}`
/// for a key.
pub open spec fn key_label_text(prefix: Seq<char>, editing: bool, key: KeyConfig) -> Seq<char> {
    if editing {
        press_a_key()
    } else if key.is_mouse_button {
        prefix + seq![' ', 'k', 'e', 'y', ':', ' ', 'M', 'o', 'u', 's', 'e', ' '] + decimal(key.code as nat)
    } else {
        prefix + seq![' ', 'k', 'e', 'y', ':', ' '] + decimal(key.code as nat)
    }
}

/// The label of the button that edits a key binding.
pub fn key_label(prefix: &str, editing: bool, key: &KeyConfig) -> (res: String)
    ensures
        res@ == key_label_text(prefix@, editing, *key),
{
    if editing {
        let r = String::from_str("Press a key...");
        proof {
            reveal_strlit("Press a key...");
        }
        return r;
    }
    let mut out = chars_of(prefix);
    let middle = if key.is_mouse_button {
        proof {
            reveal_strlit(" key: Mouse ");
        }
        chars_of(" key: Mouse ")
    } else {
        proof {
            reveal_strlit(" key: ");
        }
        chars_of(" key: ")
    };
    push_all(&mut out, middle.as_slice());
    let digits = format_u32(key.code);
    push_all(&mut out, digits.as_slice());
    string_of(out.as_slice())
}

/// The number of `true` entries of `s`.
pub open spec fn count_true(s: Seq<bool>) -> nat
    decreases s.len(),
{
    if s.len() == 0 {
        0
    } else {
        count_true(s.drop_last()) + if s.last() { 1nat } else { 0nat }
    }
}

/// The header of a multi-select box: `None` when nothing is selected, else
/// `{n} selected`.
pub open spec fn combo_header_text(selected: Seq<bool>) -> Seq<char> {
    if count_true(selected) == 0 {
        seq!['N', 'o', 'n', 'e']
    } else {
        decimal(count_true(selected)) + seq![' ', 's', 'e', 'l', 'e', 'c', 't', 'e', 'd']
    }
}

/// The header of a multi-select box.
pub fn combo_header(selected: &[bool]) -> (res: String)
    ensures
        res@ == combo_header_text(selected@),
{
    let mut n: usize = 0;
    let mut i: usize = 0;
    while i < selected.len()
        invariant
            i <= selected@.len(),
            n == count_true(selected@.take(i as int)),
            n <= i,
        decreases selected@.len() - i,
    {
        assert(selected@.take(i + 1).drop_last() == selected@.take(i as int));
        if selected[i] {
            n = n + 1;
        }
        i = i + 1;
    }
    assert(selected@.take(selected@.len() as int) == selected@);
    if n == 0 {
        let r = String::from_str("None");
        proof {
            reveal_strlit("None");
        }
        r
    } else {
        let mut out = format_usize(n);
        proof {
            reveal_strlit(" selected");
        }
        let tail = chars_of(" selected");
        push_all(&mut out, tail.as_slice());
        string_of(out.as_slice())
    }
}

/// `std::str::from_utf8`: the text that the bytes encode, when they are valid
/// UTF-8 (per vstd's `valid_utf8` and `decode_utf8`); `None` otherwise.
#[verifier::external_body]
pub(crate) fn utf8_text(bytes: &[u8]) -> (res: Option<&str>)
    ensures
        match res {
            Some(s) => valid_utf8(bytes@) && s@ == decode_utf8(bytes@),
            None => !valid_utf8(bytes@),
        },
{
    std::str::from_utf8(bytes).ok()
}

/// `s` without its trailing NUL characters.
pub open spec fn strip_nuls(s: Seq<char>) -> Seq<char>
    decreases s.len(),
{
    if s.len() > 0 && s.last() == '\0' {
        strip_nuls(s.drop_last())
    } else {
        s
    }
}

/// A name held in a fixed-size buffer of a C structure: the buffer decoded as
/// UTF-8 (empty when it is not valid UTF-8), without its trailing NULs.
pub fn c_string_field(bytes: &[u8]) -> (res: String)
    ensures
        res@ == (if valid_utf8(bytes@) { strip_nuls(decode_utf8(bytes@)) } else { Seq::<char>::empty() }),
{
    match utf8_text(bytes) {
        Some(s) => {
            let c = chars_of(s);
            let mut end: usize = c.len();
            assert(c@.subrange(0, end as int) == c@);
            while end > 0 && c[end - 1] == '\0'
                invariant
                    end <= c@.len(),
                    strip_nuls(c@) == strip_nuls(c@.subrange(0, end as int)),
                decreases end,
            {
                assert(c@.subrange(0, end as int).drop_last() == c@.subrange(0, end - 1));
                end = end - 1;
            }
            let kept = crate::text::slice_range(c.as_slice(), 0, end);
            string_of(kept.as_slice())
        },
        None => String::new(),
    }
}

/// Position of the first 0 byte of `b`, or `b.len()`.
pub open spec fn nul_position(b: Seq<u8>) -> int
    decreases b.len(),
{
    if b.len() == 0 {
        0
    } else if b[0] == 0 {
        0
    } else {
        1 + nul_position(b.drop_first())
    }
}

proof fn lemma_nul_position_is(b: Seq<u8>, k: int)
    requires
        0 <= k <= b.len(),
        forall|j: int| 0 <= j < k ==> b[j] != 0,
        k < b.len() ==> b[k] == 0,
    ensures
        nul_position(b) == k,
    decreases b.len(),
{
    if b.len() > 0 && k > 0 {
        assert forall|j: int| 0 <= j < k - 1 implies b.drop_first()[j] != 0 by {
            assert(b.drop_first()[j] == b[j + 1]);
        }
        lemma_nul_position_is(b.drop_first(), k - 1);
    }
}

/// The text typed into a NUL-terminated edit buffer: the bytes before the
/// first NUL, which must be valid UTF-8, decoded.
pub fn buffer_text(buf: &[u8]) -> (res: String)
    requires
        valid_utf8(buf@.subrange(0, nul_position(buf@))),
    ensures
        res@ == decode_utf8(buf@.subrange(0, nul_position(buf@))),
{
    let mut end: usize = 0;
    while end < buf.len() && buf[end] != 0
        invariant
            end <= buf@.len(),
            forall|j: int| 0 <= j < end ==> buf@[j] != 0,
        decreases buf@.len() - end,
    {
        end = end + 1;
    }
    proof {
        lemma_nul_position_is(buf@, end as int);
    }
    let mut bytes: Vec<u8> = Vec::new();
    let mut k: usize = 0;
    while k < end
        invariant
            k <= end <= buf@.len(),
            bytes@ == buf@.subrange(0, k as int),
        decreases end - k,
    {
        bytes.push(buf[k]);
        assert(buf@.subrange(0, k + 1) == buf@.subrange(0, k as int).push(buf@[k as int]));
        k = k + 1;
    }
    match utf8_text(bytes.as_slice()) {
        Some(s) => String::from_str(s),
        None => String::new(),
    }
}

/// The names of the conditions, in field order.
pub open spec fn condition_names() -> Seq<Seq<char>> {
    seq![
        seq!['D', 'i', 's', 'g', 'u', 'i', 's', 'e', 'd'],
        seq!['T', 'a', 'u', 'n', 't', 'i', 'n', 'g'],
        seq!['Z', 'o', 'o', 'm', 'e', 'd'],
        seq!['I', 'n', 'v', 'i', 's', 'i', 'b', 'l', 'e'],
        seq!['M', 'i', 'l', 'k', 'e', 'd'],
        seq!['N', 'o', ' ', 'M', 'G'],
        seq!['B', 'u', 't', 't', 'e', 'r'],
    ]
}

/// The name of the condition at position `i` (0 .. 6).
pub fn condition_name(i: usize) -> (res: &'static str)
    requires
        i < 7,
    ensures
        res@ == condition_names()[i as int],
{
    proof {
        reveal_strlit("Disguised");
        reveal_strlit("Taunting");
        reveal_strlit("Zoomed");
        reveal_strlit("Invisible");
        reveal_strlit("Milked");
        reveal_strlit("No MG");
        reveal_strlit("Butter");
    }
    if i == 0 {
        "Disguised"
    } else if i == 1 {
        "Taunting"
    } else if i == 2 {
        "Zoomed"
    } else if i == 3 {
        "Invisible"
    } else if i == 4 {
        "Milked"
    } else if i == 5 {
        "No MG"
    } else {
        "Butter"
    }
}

/// The rows in which the shown conditions' color pickers are laid out: the
/// positions in order, two per row, the last row holding one when their number
/// is odd.
pub fn picker_rows(indices: &Vec<usize>) -> (res: Vec<Vec<usize>>)
    ensures
        res@.len() == (indices@.len() + 1) / 2,
        forall|r: int| 0 <= r < res@.len() ==>
            (#[trigger] res@[r])@ == indices@.subrange(2 * r, if 2 * r + 2 <= indices@.len() { 2 * r + 2 } else { indices@.len() as int }),
{
    let mut res: Vec<Vec<usize>> = Vec::new();
    let mut i: usize = 0;
    while i < indices.len()
        invariant
            i <= indices@.len(),
            i == 2 * res@.len() || i == indices@.len(),
            i < indices@.len() ==> i == 2 * res@.len(),
            res@.len() == (i + 1) / 2,
            forall|r: int| 0 <= r < res@.len() ==>
                (#[trigger] res@[r])@ == indices@.subrange(2 * r, if 2 * r + 2 <= indices@.len() { 2 * r + 2 } else { indices@.len() as int }),
        decreases indices@.len() - i,
    {
        let mut row: Vec<usize> = Vec::new();
        row.push(indices[i]);
        if i + 1 < indices.len() {
            row.push(indices[i + 1]);
            assert(row@ =~= indices@.subrange(i as int, i + 2));
        } else {
            assert(row@ =~= indices@.subrange(i as int, indices@.len() as int));
        }
        res.push(row);
        i = if i + 1 < indices.len() { i + 2 } else { indices.len() };
    }
    res
}

} // verus!
