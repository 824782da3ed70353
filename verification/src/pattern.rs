//! Finding a byte pattern in the memory of a loaded library: the pattern's
//! text, the lines of the process's memory map, and the first match in a
//! readable region.
use vstd::prelude::*;

use crate::text::{chars_of, find, find_char, is_whitespace, is_ws, slice_range, split_once};

verus! {

/// The whitespace-separated words of `s[i..]`, `cur` being the word begun
/// before `i` (as `str::split_whitespace`).
pub open spec fn words_from(s: Seq<char>, i: int, cur: Seq<char>) -> Seq<Seq<char>>
    decreases s.len() - i,
{
    if i >= s.len() {
        if cur.len() > 0 { seq![cur] } else { Seq::empty() }
    } else if is_ws(s[i]) {
        (if cur.len() > 0 { seq![cur] } else { Seq::empty() }) + words_from(s, i + 1, Seq::empty())
    } else {
        words_from(s, i + 1, cur.push(s[i]))
    }
}

/// The whitespace-separated words of `s`.
pub open spec fn words(s: Seq<char>) -> Seq<Seq<char>> {
    words_from(s, 0, Seq::empty())
}

/// The words of `s`, as `str::split_whitespace` gives them.
pub fn split_words(s: &[char]) -> (res: Vec<Vec<char>>)
    ensures
        res@.map_values(|w: Vec<char>| w@) == words(s@),
{
    let mut out: Vec<Vec<char>> = Vec::new();
    let mut cur: Vec<char> = Vec::new();
    let mut i: usize = 0;
    while i < s.len()
        invariant
            i <= s@.len(),
            out@.map_values(|w: Vec<char>| w@) + words_from(s@, i as int, cur@) == words(s@),
        decreases s@.len() - i,
    {
        let ghost before = out@.map_values(|w: Vec<char>| w@);
        if is_whitespace(s[i]) {
            if cur.len() > 0 {
                let ghost c = cur@;
                out.push(cur);
                assert(out@.map_values(|w: Vec<char>| w@) =~= before.push(c));
                assert(before + (seq![c] + words_from(s@, i + 1, Seq::empty())) =~= before.push(c)
                    + words_from(s@, i + 1, Seq::empty()));
            } else {
                assert(Seq::<Seq<char>>::empty() + words_from(s@, i + 1, Seq::empty()) =~= words_from(s@, i + 1, Seq::empty()));
            }
            cur = Vec::new();
            assert(cur@ =~= Seq::<char>::empty());
        } else {
            cur.push(s[i]);
        }
        i = i + 1;
    }
    if cur.len() > 0 {
        let ghost before = out@.map_values(|w: Vec<char>| w@);
        let ghost c = cur@;
        out.push(cur);
        assert(out@.map_values(|w: Vec<char>| w@) =~= before + seq![c]);
    } else {
        assert(out@.map_values(|w: Vec<char>| w@) =~= out@.map_values(|w: Vec<char>| w@) + Seq::<Seq<char>>::empty());
    }
    out
}

/// The value of a hexadecimal digit (either case), if `c` is one.
pub open spec fn hex_digit(c: char) -> Option<nat> {
    if '0' <= c && c <= '9' {
        Some((c as int - '0' as int) as nat)
    } else if 'a' <= c && c <= 'f' {
        Some((c as int - 'a' as int + 10) as nat)
    } else if 'A' <= c && c <= 'F' {
        Some((c as int - 'A' as int + 10) as nat)
    } else {
        None
    }
}

/// Every character of `s` is a hexadecimal digit.
pub open spec fn all_hex(s: Seq<char>) -> bool {
    forall|i: int| 0 <= i < s.len() ==> (#[trigger] hex_digit(s[i])) is Some
}

/// The number that the hexadecimal digits `s` spell.
pub open spec fn hex_value(s: Seq<char>) -> nat
    decreases s.len(),
{
    if s.len() == 0 {
        0
    } else {
        hex_value(s.drop_last()) * 16 + hex_digit(s.last())->0
    }
}

/// `from_str_radix(s, 16)` for an unsigned type whose largest value is
/// `max`: an optional `+`, then at least one hexadecimal digit, spelling at
/// most `max`.
pub open spec fn parse_hex_spec(s: Seq<char>, max: nat) -> Option<nat> {
    let digits = if s.len() > 0 && s[0] == '+' { s.drop_first() } else { s };
    if digits.len() > 0 && all_hex(digits) && hex_value(digits) <= max {
        Some(hex_value(digits))
    } else {
        None
    }
}

fn hex_digit_of(c: char) -> (res: Option<u8>)
    ensures
        match res {
            Some(d) => hex_digit(c) == Some(d as nat) && d < 16,
            None => hex_digit(c) is None,
        },
{
    if '0' <= c && c <= '9' {
        Some(((c as u32) - ('0' as u32)) as u8)
    } else if 'a' <= c && c <= 'f' {
        Some(((c as u32) - ('a' as u32) + 10) as u8)
    } else if 'A' <= c && c <= 'F' {
        Some(((c as u32) - ('A' as u32) + 10) as u8)
    } else {
        None
    }
}

/// `from_str_radix(s, 16)` for an unsigned type whose largest value is `max`.
pub fn parse_hex(s: &[char], max: u64) -> (res: Option<u64>)
    ensures
        match res {
            Some(v) => parse_hex_spec(s@, max as nat) == Some(v as nat),
            None => parse_hex_spec(s@, max as nat) is None,
        },
{
    let from: usize = if s.len() > 0 && s[0] == '+' { 1 } else { 0 };
    let ghost digits = if s@.len() > 0 && s@[0] == '+' { s@.drop_first() } else { s@ };
    assert(digits =~= s@.subrange(from as int, s@.len() as int));
    if from >= s.len() {
        return None;
    }
    let cap: u128 = (max as u128) + 1;
    let mut v: u128 = 0;
    let mut i: usize = from;
    while i < s.len()
        invariant
            from <= i <= s@.len(),
            digits == s@.subrange(from as int, s@.len() as int),
            digits == (if s@.len() > 0 && s@[0] == '+' { s@.drop_first() } else { s@ }),
            cap == max + 1,
            all_hex(digits.take(i - from)),
            v == if hex_value(digits.take(i - from)) < cap { hex_value(digits.take(i - from)) } else { cap as nat },
        decreases s@.len() - i,
    {
        let ghost pre = digits.take(i - from);
        let ghost next = digits.take(i - from + 1);
        assert(next.drop_last() == pre);
        assert(next.last() == s@[i as int]);
        match hex_digit_of(s[i]) {
            Some(d) => {
                let w = v * 16 + (d as u128);
                v = if w < cap { w } else { cap };
                assert(hex_value(next) == hex_value(pre) * 16 + d);
                assert forall|k: int| 0 <= k < next.len() implies (#[trigger] hex_digit(next[k])) is Some by {
                    if k < pre.len() {
                        assert(next[k] == pre[k]);
                    }
                }
            },
            None => {
                assert(digits[i - from] == s@[i as int]);
                assert(hex_digit(digits[i - from]) is None);
                assert(!all_hex(digits));
                return None;
            },
        }
        i = i + 1;
    }
    assert(digits.take(i - from) == digits);
    if v < cap {
        Some(v as u64)
    } else {
        None
    }
}

/// A pattern word: `?` and `??` match any byte, and so does a word that is
/// not a hexadecimal byte; any other word matches the byte it spells.
pub open spec fn token_byte(w: Seq<char>) -> Option<u8> {
    if w == seq!['?'] || w == seq!['?', '?'] {
        None
    } else {
        match parse_hex_spec(w, 255) {
            Some(v) => Some(v as u8),
            None => None,
        }
    }
}

/// The bytes of a pattern, one for each word, `None` matching any byte.
pub open spec fn pattern_tokens(p: Seq<char>) -> Seq<Option<u8>> {
    words(p).map_values(|w: Seq<char>| token_byte(w))
}

/// The bytes of a pattern such as `"48 8B ?? 05"`.
pub fn parse_pattern(p: &str) -> (res: Vec<Option<u8>>)
    ensures
        res@ == pattern_tokens(p@),
{
    let chars = chars_of(p);
    let ws = split_words(chars.as_slice());
    let ghost wv = ws@.map_values(|w: Vec<char>| w@);
    let mut res: Vec<Option<u8>> = Vec::new();
    let mut i: usize = 0;
    while i < ws.len()
        invariant
            i <= ws@.len(),
            wv == ws@.map_values(|w: Vec<char>| w@),
            wv == words(p@),
            res@ == wv.take(i as int).map_values(|w: Seq<char>| token_byte(w)),
        decreases ws@.len() - i,
    {
        let w = &ws[i];
        assert(w@ == wv[i as int]);
        let wild = (w.len() == 1 && w[0] == '?') || (w.len() == 2 && w[0] == '?' && w[1] == '?');
        assert(wild == (w@ == seq!['?'] || w@ == seq!['?', '?'])) by {
            if w@.len() == 1 && w@[0] == '?' {
                assert(w@ =~= seq!['?']);
            }
            if w@.len() == 2 && w@[0] == '?' && w@[1] == '?' {
                assert(w@ =~= seq!['?', '?']);
            }
        }
        let b: Option<u8> = if wild {
            None
        } else {
            match parse_hex(w.as_slice(), 255) {
                Some(v) => Some(v as u8),
                None => None,
            }
        };
        assert(b == token_byte(w@));
        res.push(b);
        assert(wv.take(i + 1) == wv.take(i as int).push(wv[i as int]));
        assert(res@ =~= wv.take(i + 1).map_values(|w: Seq<char>| token_byte(w)));
        i = i + 1;
    }
    assert(wv.take(ws@.len() as int) == wv);
    res
}

/// What one line of the memory map says.
#[derive(Clone, Copy, PartialEq, Eq, Structural, Debug)]
pub enum MapsLine {
    /// Not a readable region of the library.
    Skip,
    /// A line of the library that cannot be read; the scan stops.
    Malformed,
    /// A readable region of the library: its start and end address.
    Region(usize, usize),
}

/// `s` contains `t`.
pub open spec fn contains(s: Seq<char>, t: Seq<char>) -> bool {
    exists|i: int| 0 <= i <= s.len() - t.len() && #[trigger] s.subrange(i, i + t.len()) == t
}

/// What a line of the memory map says, for the library `lib`: a line that
/// does not name it is skipped; it needs an address range and a permission
/// word, else it cannot be read; a region that is not readable is skipped;
/// the range is two hexadecimal addresses joined by `-`.
pub open spec fn spec_maps_line(line: Seq<char>, lib: Seq<char>) -> MapsLine {
    let ws = words(line);
    if !contains(line, lib) {
        MapsLine::Skip
    } else if ws.len() < 2 {
        MapsLine::Malformed
    } else if !(ws[1].len() > 0 && ws[1][0] == 'r') {
        MapsLine::Skip
    } else {
        match split_once(ws[0], '-') {
            None => MapsLine::Malformed,
            Some((a, b)) => match (parse_hex_spec(a, usize::MAX as nat), parse_hex_spec(b, usize::MAX as nat)) {
                (Some(x), Some(y)) => MapsLine::Region(x as usize, y as usize),
                _ => MapsLine::Malformed,
            },
        }
    }
}

fn contains_chars(s: &[char], t: &[char]) -> (res: bool)
    ensures
        res == contains(s@, t@),
{
    if t.len() > s.len() {
        return false;
    }
    let n = s.len();
    let mut i: usize = 0;
    while i <= n - t.len()
        invariant
            n == s@.len(),
            t@.len() <= s@.len(),
            i <= s@.len() - t@.len() + 1,
            forall|k: int| 0 <= k < i ==> #[trigger] s@.subrange(k, k + t@.len()) != t@,
        decreases s@.len() - t@.len() + 1 - i,
    {
        let mut j: usize = 0;
        while j < t.len() && s[i + j] == t[j]
            invariant
                n == s@.len(),
                t@.len() <= s@.len(),
                i <= s@.len() - t@.len(),
                i + t@.len() <= s@.len(),
                j <= t@.len(),
                forall|m: int| 0 <= m < j ==> s@[i + m] == t@[m],
            decreases t@.len() - j,
        {
            j = j + 1;
        }
        if j == t.len() {
            assert(s@.subrange(i as int, i + t@.len()) =~= t@);
            return true;
        }
        assert(s@.subrange(i as int, i + t@.len())[j as int] != t@[j as int]);
        i = i + 1;
    }
    false
}

/// What a line of the memory map says, for the library `lib`.
pub fn maps_line(line: &str, lib: &str) -> (res: MapsLine)
    ensures
        res == spec_maps_line(line@, lib@),
{
    let l = chars_of(line);
    let name = chars_of(lib);
    if !contains_chars(l.as_slice(), name.as_slice()) {
        return MapsLine::Skip;
    }
    let ws = split_words(l.as_slice());
    let ghost wv = ws@.map_values(|w: Vec<char>| w@);
    if ws.len() < 2 {
        return MapsLine::Malformed;
    }
    assert(wv[1] == ws@[1]@);
    if !(ws[1].len() > 0 && ws[1][0] == 'r') {
        return MapsLine::Skip;
    }
    let range = &ws[0];
    assert(wv[0] == range@);
    let k = find_char(range.as_slice(), '-');
    if k >= range.len() {
        return MapsLine::Malformed;
    }
    let a = slice_range(range.as_slice(), 0, k);
    let b = slice_range(range.as_slice(), k + 1, range.len());
    match (parse_hex(a.as_slice(), usize::MAX as u64), parse_hex(b.as_slice(), usize::MAX as u64)) {
        (Some(x), Some(y)) => MapsLine::Region(x as usize, y as usize),
        _ => MapsLine::Malformed,
    }
}

/// Every byte that `pat` fixes is the byte of `region` at the same place
/// after `k`.
pub open spec fn matches_at(region: Seq<u8>, pat: Seq<Option<u8>>, k: int) -> bool {
    forall|i: int| 0 <= i < pat.len() && (#[trigger] pat[i]) is Some ==> region[k + i] == pat[i]->0
}

/// The first offset `k` with `k + pat.len() < region.len()` at which the
/// pattern matches, if there is one.
pub fn find_pattern(region: &[u8], pat: &[Option<u8>]) -> (res: Option<usize>)
    ensures
        match res {
            Some(k) => k + pat@.len() < region@.len() && matches_at(region@, pat@, k as int)
                && forall|j: int| 0 <= j < k ==> !matches_at(region@, pat@, j),
            None => forall|j: int| 0 <= j && j + pat@.len() < region@.len() ==> !matches_at(region@, pat@, j),
        },
{
    let n = region.len();
    let mut k: usize = 0;
    while pat.len() < n && k < n - pat.len()
        invariant
            n == region@.len(),
            forall|j: int| 0 <= j < k ==> !matches_at(region@, pat@, j),
        decreases region@.len() - k,
    {
        let mut i: usize = 0;
        let mut found = true;
        while i < pat.len()
            invariant
                n == region@.len(),
                k + pat@.len() < region@.len(),
                i <= pat@.len(),
                found ==> forall|m: int| 0 <= m < i && (#[trigger] pat@[m]) is Some ==> region@[k + m] == pat@[m]->0,
                !found ==> !matches_at(region@, pat@, k as int),
            decreases pat@.len() - i,
        {
            match pat[i] {
                Some(b) => {
                    assert(k + i < region@.len());
                    if region[k + i] != b {
                        found = false;
                    }
                },
                None => {},
            }
            i = i + 1;
        }
        if found {
            return Some(k);
        }
        k = k + 1;
    }
    None
}

} // verus!
