//! Character-level text utilities with exact specifications: the pieces of
//! `str` handling (whitespace trimming, line splitting, splitting at a
//! separator, decimal numbers) that the configuration formats are built from.
use vstd::prelude::*;

verus! {

/// Copies the characters of `s` into a vector.
pub fn chars_of(s: &str) -> (res: Vec<char>)
    ensures
        res@ == s@,
{
    let mut res: Vec<char> = Vec::new();
    for c in it: s.chars()
        invariant
            res@ == it.seq().take(it.index() as int),
            it.seq() == s@,
    {
        res.push(c);
    }
    res
}

/// Appends one character to a string (`String::push`).
#[verifier::external_body]
fn push_char(s: &mut String, c: char)
    ensures
        final(s)@ == old(s)@.push(c),
{
    s.push(c);
}

/// Builds a string holding exactly the given characters.
pub fn string_of(chars: &[char]) -> (res: String)
    ensures
        res@ == chars@,
{
    let mut res = String::new();
    let mut i: usize = 0;
    while i < chars.len()
        invariant
            i <= chars@.len(),
            res@ == chars@.take(i as int),
        decreases chars@.len() - i,
    {
        push_char(&mut res, chars[i]);
        assert(chars@.take(i + 1) == chars@.take(i as int).push(chars@[i as int]));
        i = i + 1;
    }
    assert(chars@.take(chars@.len() as int) == chars@);
    res
}

/// Whitespace as `char::is_whitespace` defines it: the Unicode `White_Space`
/// property.
pub open spec fn is_ws(c: char) -> bool {
    ||| ('\u{9}' <= c && c <= '\u{d}')
    ||| c == ' '
    ||| c == '\u{85}'
    ||| c == '\u{a0}'
    ||| c == '\u{1680}'
    ||| ('\u{2000}' <= c && c <= '\u{200a}')
    ||| c == '\u{2028}'
    ||| c == '\u{2029}'
    ||| c == '\u{202f}'
    ||| c == '\u{205f}'
    ||| c == '\u{3000}'
}

/// Executable whitespace test.
pub fn is_whitespace(c: char) -> (res: bool)
    ensures
        res == is_ws(c),
{
    ('\u{9}' <= c && c <= '\u{d}') || c == ' ' || c == '\u{85}' || c == '\u{a0}'
        || c == '\u{1680}' || ('\u{2000}' <= c && c <= '\u{200a}') || c == '\u{2028}'
        || c == '\u{2029}' || c == '\u{202f}' || c == '\u{205f}' || c == '\u{3000}'
}

/// `s` without its leading whitespace.
pub open spec fn trim_start(s: Seq<char>) -> Seq<char>
    decreases s.len(),
{
    if s.len() > 0 && is_ws(s[0]) {
        trim_start(s.drop_first())
    } else {
        s
    }
}

/// `s` without its trailing whitespace.
pub open spec fn trim_end(s: Seq<char>) -> Seq<char>
    decreases s.len(),
{
    if s.len() > 0 && is_ws(s.last()) {
        trim_end(s.drop_last())
    } else {
        s
    }
}

/// `str::trim`: `s` without leading and trailing whitespace.
pub open spec fn trim(s: Seq<char>) -> Seq<char> {
    trim_end(trim_start(s))
}

proof fn lemma_trim_start_skip(s: Seq<char>, i: int)
    requires
        0 <= i <= s.len(),
        forall|k: int| 0 <= k < i ==> is_ws(#[trigger] s[k]),
    ensures
        trim_start(s) == trim_start(s.subrange(i, s.len() as int)),
    decreases i,
{
    if i > 0 {
        assert(s.drop_first() == s.subrange(1, s.len() as int));
        lemma_trim_start_skip(s.drop_first(), i - 1);
        assert(s.drop_first().subrange(i - 1, s.drop_first().len() as int)
            == s.subrange(i, s.len() as int));
    } else {
        assert(s.subrange(0, s.len() as int) == s);
    }
}

proof fn lemma_trim_end_skip(s: Seq<char>, j: int)
    requires
        0 <= j <= s.len(),
        forall|k: int| j <= k < s.len() ==> is_ws(#[trigger] s[k]),
    ensures
        trim_end(s) == trim_end(s.subrange(0, j)),
    decreases s.len() - j,
{
    if j < s.len() {
        assert(s.drop_last() == s.subrange(0, s.len() - 1));
        lemma_trim_end_skip(s.drop_last(), j);
        assert(s.drop_last().subrange(0, j) == s.subrange(0, j));
    } else {
        assert(s.subrange(0, s.len() as int) == s);
    }
}

/// The bounds `(start, end)` of `trim(s)` within `s`.
pub fn trim_bounds(s: &[char]) -> (res: (usize, usize))
    ensures
        res.0 <= res.1 <= s@.len(),
        trim(s@) == s@.subrange(res.0 as int, res.1 as int),
{
    let mut i: usize = 0;
    while i < s.len() && is_whitespace(s[i])
        invariant
            i <= s@.len(),
            forall|k: int| 0 <= k < i ==> is_ws(#[trigger] s@[k]),
        decreases s@.len() - i,
    {
        i = i + 1;
    }
    proof {
        lemma_trim_start_skip(s@, i as int);
    }
    let ghost t = s@.subrange(i as int, s@.len() as int);
    assert(trim_start(t) == t);
    let mut j: usize = s.len();
    while j > i && is_whitespace(s[j - 1])
        invariant
            i <= j <= s@.len(),
            forall|k: int| j <= k < s@.len() ==> is_ws(#[trigger] s@[k]),
        decreases j,
    {
        j = j - 1;
    }
    proof {
        lemma_trim_end_skip(t, j - i);
        assert(t.subrange(0, j - i) == s@.subrange(i as int, j as int));
    }
    (i, j)
}

/// `str::trim` on a character slice.
pub fn trim_chars(s: &[char]) -> (res: Vec<char>)
    ensures
        res@ == trim(s@),
{
    let (i, j) = trim_bounds(s);
    slice_range(s, i, j)
}

/// A copy of `s[from..to]`.
pub fn slice_range(s: &[char], from: usize, to: usize) -> (res: Vec<char>)
    requires
        from <= to <= s@.len(),
    ensures
        res@ == s@.subrange(from as int, to as int),
{
    let mut res: Vec<char> = Vec::new();
    let mut k: usize = from;
    while k < to
        invariant
            from <= k <= to,
            to <= s@.len(),
            res@ == s@.subrange(from as int, k as int),
        decreases to - k,
    {
        res.push(s[k]);
        assert(s@.subrange(from as int, k + 1) == s@.subrange(from as int, k as int).push(s@[k as int]));
        k = k + 1;
    }
    res
}


/// Index of the first `c` in `s`, or `s.len()` when `s` holds none.
pub open spec fn find(s: Seq<char>, c: char) -> int
    decreases s.len(),
{
    if s.len() == 0 {
        0
    } else if s[0] == c {
        0
    } else {
        1 + find(s.drop_first(), c)
    }
}

/// What characterises `find`.
pub proof fn lemma_find(s: Seq<char>, c: char)
    ensures
        0 <= find(s, c) <= s.len(),
        forall|k: int| 0 <= k < find(s, c) ==> s[k] != c,
        find(s, c) < s.len() ==> s[find(s, c)] == c,
    decreases s.len(),
{
    if s.len() > 0 && s[0] != c {
        lemma_find(s.drop_first(), c);
        assert forall|k: int| 0 <= k < find(s, c) implies s[k] != c by {
            if k > 0 {
                assert(s[k] == s.drop_first()[k - 1]);
            }
        }
    }
}

/// `find` is the first position holding `c`.
pub proof fn lemma_find_is(s: Seq<char>, c: char, k: int)
    requires
        0 <= k <= s.len(),
        forall|j: int| 0 <= j < k ==> s[j] != c,
        k < s.len() ==> s[k] == c,
    ensures
        find(s, c) == k,
    decreases s.len(),
{
    if s.len() > 0 && k > 0 {
        assert(s[0] != c);
        assert forall|j: int| 0 <= j < k - 1 implies s.drop_first()[j] != c by {
            assert(s.drop_first()[j] == s[j + 1]);
        }
        lemma_find_is(s.drop_first(), c, k - 1);
    }
}

/// A line as `str::lines` yields it: a `'\r'` before the ending `'\n'` is dropped.
pub open spec fn strip_cr(l: Seq<char>) -> Seq<char> {
    if l.len() > 0 && l.last() == '\r' {
        l.drop_last()
    } else {
        l
    }
}

/// `str::lines`: the lines of `s`, split at `'\n'` (a `"\r\n"` ending counts as
/// one ending); a final line ending is optional and yields no empty line.
pub open spec fn lines(s: Seq<char>) -> Seq<Seq<char>>
    decreases s.len(),
{
    if s.len() == 0 {
        seq![]
    } else {
        let k = find(s, '\n');
        if k >= s.len() {
            seq![s]
        } else {
            proof {
                lemma_find(s, '\n');
            }
            seq![strip_cr(s.subrange(0, k))] + lines(s.subrange(k + 1, s.len() as int))
        }
    }
}

/// `s` split at its first `c`, as `str::split_once` does.
pub open spec fn split_once(s: Seq<char>, c: char) -> Option<(Seq<char>, Seq<char>)> {
    let k = find(s, c);
    if k >= s.len() {
        None
    } else {
        Some((s.subrange(0, k), s.subrange(k + 1, s.len() as int)))
    }
}

/// Position of the first `c` in `s`, or `s.len()`.
pub fn find_char(s: &[char], c: char) -> (res: usize)
    ensures
        res == find(s@, c),
        res <= s@.len(),
{
    let mut i: usize = 0;
    while i < s.len() && s[i] != c
        invariant
            i <= s@.len(),
            forall|j: int| 0 <= j < i ==> s@[j] != c,
        decreases s@.len() - i,
    {
        i = i + 1;
    }
    proof {
        lemma_find_is(s@, c, i as int);
    }
    i
}

/// The character sequences of a list of character vectors.
pub open spec fn views(v: Seq<Vec<char>>) -> Seq<Seq<char>> {
    v.map_values(|l: Vec<char>| l@)
}

/// `str::lines` on a character slice.
pub fn lines_of(s: &[char]) -> (res: Vec<Vec<char>>)
    ensures
        views(res@) == lines(s@),
{
    let mut res: Vec<Vec<char>> = Vec::new();
    let mut start: usize = 0;
    let mut i: usize = 0;
    assert(s@.subrange(0, s@.len() as int) == s@);
    while i < s.len()
        invariant
            start <= i <= s@.len(),
            forall|j: int| start <= j < i ==> s@[j] != '\n',
            lines(s@) == views(res@) + lines(s@.subrange(start as int, s@.len() as int)),
        decreases s@.len() - i,
    {
        if s[i] == '\n' {
            let ghost t = s@.subrange(start as int, s@.len() as int);
            proof {
                assert forall|j: int| 0 <= j < i - start implies t[j] != '\n' by {
                    assert(t[j] == s@[start + j]);
                }
                lemma_find_is(t, '\n', i - start);
                assert(t.subrange(0, i - start) == s@.subrange(start as int, i as int));
                assert(t.subrange(i - start + 1, t.len() as int) == s@.subrange(i + 1, s@.len() as int));
            }
            let mut line = slice_range(s, start, i);
            if line.len() > 0 && line[line.len() - 1] == '\r' {
                line.pop();
            }
            assert(line@ == strip_cr(s@.subrange(start as int, i as int)));
            let ghost before = views(res@);
            res.push(line);
            assert(views(res@) =~= before.push(line@));
            assert(lines(t) == seq![line@] + lines(s@.subrange(i + 1, s@.len() as int)));
            assert(before + lines(t) == views(res@) + lines(s@.subrange(i + 1, s@.len() as int)));
            start = i + 1;
        }
        i = i + 1;
    }
    if start < s.len() {
        let ghost t = s@.subrange(start as int, s@.len() as int);
        proof {
            assert forall|j: int| 0 <= j < t.len() implies t[j] != '\n' by {
                assert(t[j] == s@[start + j]);
            }
            lemma_find_is(t, '\n', t.len() as int);
        }
        let line = slice_range(s, start, s.len());
        let ghost before = views(res@);
        res.push(line);
        assert(views(res@) =~= before.push(line@));
        assert(lines(t) == seq![line@]);
    } else {
        assert(lines(s@.subrange(start as int, s@.len() as int)) == Seq::<Seq<char>>::empty());
        assert(views(res@) + Seq::<Seq<char>>::empty() == views(res@));
    }
    res
}


/// A decimal digit character.
pub open spec fn is_digit(c: char) -> bool {
    '0' <= c && c <= '9'
}

/// The value of a decimal digit character.
pub open spec fn digit_value(c: char) -> nat {
    (c as int - '0' as int) as nat
}

/// The character of a decimal digit `d < 10`.
pub open spec fn digit_of(d: nat) -> char {
    (d + '0' as int) as char
}

/// Every character of `s` is a decimal digit.
pub open spec fn all_digits(s: Seq<char>) -> bool {
    forall|i: int| 0 <= i < s.len() ==> is_digit(#[trigger] s[i])
}

/// The number that the decimal digits `s` spell (0 for no digits).
pub open spec fn value_of(s: Seq<char>) -> nat
    decreases s.len(),
{
    if s.len() == 0 {
        0
    } else {
        value_of(s.drop_last()) * 10 + digit_value(s.last())
    }
}

/// The decimal representation of `n`, as `Display` writes it for unsigned
/// integers: no sign, no leading zeros.
pub open spec fn decimal(n: nat) -> Seq<char>
    decreases n,
{
    if n < 10 {
        seq![digit_of(n)]
    } else {
        decimal(n / 10).push(digit_of(n % 10))
    }
}

/// `Display` of an `i32`: a `'-'` before the digits of a negative number.
pub open spec fn signed_decimal(n: int) -> Seq<char> {
    if n < 0 {
        seq!['-'] + decimal((-n) as nat)
    } else {
        decimal(n as nat)
    }
}

/// The digits after an optional leading `'+'`.
pub open spec fn unsigned_digits(s: Seq<char>) -> Seq<char> {
    if s.len() > 0 && s[0] == '+' {
        s.drop_first()
    } else {
        s
    }
}

/// `u32::from_str`: an optional `'+'` and at least one decimal digit, of a value
/// that fits in a `u32`; anything else (whitespace included) is refused.
pub open spec fn parse_u32_spec(s: Seq<char>) -> Option<u32> {
    let d = unsigned_digits(s);
    if d.len() > 0 && all_digits(d) && value_of(d) <= u32::MAX {
        Some(value_of(d) as u32)
    } else {
        None
    }
}

/// `i32::from_str`: an optional `'+'` or `'-'` and at least one decimal digit,
/// of a value that fits in an `i32`.
pub open spec fn parse_i32_spec(s: Seq<char>) -> Option<i32> {
    if s.len() > 0 && s[0] == '-' {
        let d = s.drop_first();
        if d.len() > 0 && all_digits(d) && value_of(d) <= 0x8000_0000 {
            Some((-(value_of(d) as int)) as i32)
        } else {
            None
        }
    } else {
        let d = unsigned_digits(s);
        if d.len() > 0 && all_digits(d) && value_of(d) <= i32::MAX {
            Some(value_of(d) as i32)
        } else {
            None
        }
    }
}

proof fn lemma_value_of_prefix(s: Seq<char>, k: int)
    requires
        0 <= k <= s.len(),
        all_digits(s),
    ensures
        value_of(s.take(k)) <= value_of(s),
    decreases s.len() - k,
{
    if k < s.len() {
        lemma_value_of_prefix(s, k + 1);
        assert(s.take(k + 1).drop_last() == s.take(k));
    } else {
        assert(s.take(k) == s);
    }
}

/// The decimal representation reads back as the same number.
pub proof fn lemma_decimal(n: nat)
    ensures
        decimal(n).len() > 0,
        all_digits(decimal(n)),
        value_of(decimal(n)) == n,
    decreases n,
{
    if n >= 10 {
        lemma_decimal(n / 10);
        let d = decimal(n);
        assert(d.drop_last() == decimal(n / 10));
        assert(d.last() == digit_of(n % 10));
        assert(digit_value(digit_of(n % 10)) == n % 10);
        assert(n == (n / 10) * 10 + n % 10);
        assert(value_of(d) == value_of(d.drop_last()) * 10 + digit_value(d.last()));
        assert(value_of(d) == (n / 10) * 10 + n % 10);
        assert forall|i: int| 0 <= i < d.len() implies is_digit(#[trigger] d[i]) by {
            if i < d.len() - 1 {
                assert(d[i] == decimal(n / 10)[i]);
            }
        }
    } else {
        let d = decimal(n);
        assert(d.drop_last() == Seq::<char>::empty());
        assert(digit_value(digit_of(n)) == n);
        assert(value_of(d) == value_of(d.drop_last()) * 10 + digit_value(d.last()));
    }
}

fn digit_char(d: u32) -> (c: char)
    requires
        d < 10,
    ensures
        c == digit_of(d as nat),
        is_digit(c),
{
    if d == 0 { '0' } else if d == 1 { '1' } else if d == 2 { '2' } else if d == 3 { '3' }
    else if d == 4 { '4' } else if d == 5 { '5' } else if d == 6 { '6' } else if d == 7 { '7' }
    else if d == 8 { '8' } else { '9' }
}

fn char_digit(c: char) -> (d: u32)
    requires
        is_digit(c),
    ensures
        d == digit_value(c),
        d < 10,
{
    if c == '0' { 0 } else if c == '1' { 1 } else if c == '2' { 2 } else if c == '3' { 3 }
    else if c == '4' { 4 } else if c == '5' { 5 } else if c == '6' { 6 } else if c == '7' { 7 }
    else if c == '8' { 8 } else { 9 }
}

fn is_digit_char(c: char) -> (res: bool)
    ensures
        res == is_digit(c),
{
    '0' <= c && c <= '9'
}

fn push_decimal(n: u32, out: &mut Vec<char>)
    ensures
        final(out)@ == old(out)@ + decimal(n as nat),
    decreases n,
{
    if n >= 10 {
        push_decimal(n / 10, out);
    }
    out.push(digit_char(n % 10));
}

/// `u32` as `Display` writes it.
pub fn format_u32(n: u32) -> (res: Vec<char>)
    ensures
        res@ == decimal(n as nat),
{
    let mut out: Vec<char> = Vec::new();
    push_decimal(n, &mut out);
    assert(out@ == decimal(n as nat));
    out
}

fn push_decimal_usize(n: usize, out: &mut Vec<char>)
    ensures
        final(out)@ == old(out)@ + decimal(n as nat),
    decreases n,
{
    if n >= 10 {
        push_decimal_usize(n / 10, out);
    }
    out.push(digit_char((n % 10) as u32));
}

/// `usize` as `Display` writes it.
pub fn format_usize(n: usize) -> (res: Vec<char>)
    ensures
        res@ == decimal(n as nat),
{
    let mut out: Vec<char> = Vec::new();
    push_decimal_usize(n, &mut out);
    assert(out@ == decimal(n as nat));
    out
}

/// `i32` as `Display` writes it.
pub fn format_i32(n: i32) -> (res: Vec<char>)
    ensures
        res@ == signed_decimal(n as int),
{
    let mut out: Vec<char> = Vec::new();
    if n < 0 {
        out.push('-');
        let m: u32 = if n == i32::MIN { 0x8000_0000u32 } else { (-n) as u32 };
        push_decimal(m, &mut out);
    } else {
        push_decimal(n as u32, &mut out);
    }
    out
}

/// The value of the digits `s[from..]`, or `None` when one is not a digit or
/// the value exceeds `limit`.
fn digits_value(s: &[char], from: usize, limit: u64) -> (res: Option<u64>)
    requires
        from <= s@.len(),
        limit <= u32::MAX as u64 + 1,
    ensures
        ({
            let d = s@.subrange(from as int, s@.len() as int);
            match res {
                Some(v) => all_digits(d) && v == value_of(d) && v <= limit,
                None => !(all_digits(d) && value_of(d) <= limit),
            }
        }),
{
    let ghost d = s@.subrange(from as int, s@.len() as int);
    let mut acc: u64 = 0;
    let mut i: usize = from;
    while i < s.len()
        invariant
            from <= i <= s@.len(),
            d == s@.subrange(from as int, s@.len() as int),
            limit <= u32::MAX as u64 + 1,
            all_digits(d.take(i - from)),
            acc == value_of(d.take(i - from)),
            acc <= limit,
        decreases s@.len() - i,
    {
        let c = s[i];
        if !is_digit_char(c) {
            assert(d[i - from] == c);
            return None;
        }
        let v = char_digit(c);
        proof {
            assert(d.take(i - from + 1).drop_last() == d.take(i - from));
            assert(d.take(i - from + 1).last() == c);
        }
        let next: u64 = acc * 10 + v as u64;
        assert(next == value_of(d.take(i - from + 1)));
        assert forall|k: int| 0 <= k < i - from + 1 implies is_digit(#[trigger] d.take(i - from + 1)[k]) by {
            if k < i - from {
                assert(d.take(i - from + 1)[k] == d.take(i - from)[k]);
            }
        }
        if next > limit {
            proof {
                if all_digits(d) {
                    lemma_value_of_prefix(d, i - from + 1);
                }
            }
            return None;
        }
        acc = next;
        i = i + 1;
    }
    assert(d.take(i - from) == d);
    Some(acc)
}

/// `u32::from_str` on a character slice.
pub fn parse_u32(s: &[char]) -> (res: Option<u32>)
    ensures
        res == parse_u32_spec(s@),
{
    let from: usize = if s.len() > 0 && s[0] == '+' { 1 } else { 0 };
    assert(unsigned_digits(s@) == s@.subrange(from as int, s@.len() as int));
    if from == s.len() {
        return None;
    }
    match digits_value(s, from, u32::MAX as u64) {
        Some(v) => Some(v as u32),
        None => None,
    }
}

/// `i32::from_str` on a character slice.
pub fn parse_i32(s: &[char]) -> (res: Option<i32>)
    ensures
        res == parse_i32_spec(s@),
{
    if s.len() > 0 && s[0] == '-' {
        assert(s@.drop_first() == s@.subrange(1, s@.len() as int));
        if s.len() == 1 {
            return None;
        }
        match digits_value(s, 1, 0x8000_0000u64) {
            Some(v) => {
                let r: i32 = if v == 0x8000_0000u64 { i32::MIN } else { -(v as i32) };
                Some(r)
            },
            None => None,
        }
    } else {
        let from: usize = if s.len() > 0 && s[0] == '+' { 1 } else { 0 };
        assert(unsigned_digits(s@) == s@.subrange(from as int, s@.len() as int));
        if from == s.len() {
            return None;
        }
        match digits_value(s, from, i32::MAX as u64) {
            Some(v) => Some(v as i32),
            None => None,
        }
    }
}


/// The lines `ls`, each followed by `'\n'`.
pub open spec fn concat_nl(ls: Seq<Seq<char>>) -> Seq<char>
    decreases ls.len(),
{
    if ls.len() == 0 {
        seq![]
    } else {
        ls[0] + seq!['\n'] + concat_nl(ls.drop_first())
    }
}

/// `s` holds no `c`.
pub open spec fn lacks(s: Seq<char>, c: char) -> bool {
    forall|i: int| 0 <= i < s.len() ==> s[i] != c
}

/// A line that `str::lines` gives back unchanged: no `'\n'` and no final `'\r'`.
pub open spec fn plain_line(l: Seq<char>) -> bool {
    lacks(l, '\n') && !(l.len() > 0 && l.last() == '\r')
}

/// Adding a line at the end adds its text and a `'\n'`.
pub proof fn lemma_concat_nl_push(ls: Seq<Seq<char>>, l: Seq<char>)
    ensures
        concat_nl(ls.push(l)) == concat_nl(ls) + l + seq!['\n'],
    decreases ls.len(),
{
    if ls.len() > 0 {
        lemma_concat_nl_push(ls.drop_first(), l);
        assert(ls.push(l).drop_first() == ls.drop_first().push(l));
        assert(ls.push(l)[0] == ls[0]);
        assert(concat_nl(ls.push(l)) == ls[0] + seq!['\n'] + concat_nl(ls.drop_first().push(l)));
        assert(ls[0] + seq!['\n'] + (concat_nl(ls.drop_first()) + l + seq!['\n'])
            =~= ls[0] + seq!['\n'] + concat_nl(ls.drop_first()) + l + seq!['\n']);
    } else {
        assert(ls.push(l).drop_first() == Seq::<Seq<char>>::empty());
        assert(concat_nl(ls.push(l)) == l + seq!['\n'] + concat_nl(Seq::<Seq<char>>::empty()));
        assert(concat_nl(ls.push(l)) =~= concat_nl(ls) + l + seq!['\n']);
    }
}

/// Lines written one per line read back as the same lines.
pub proof fn lemma_lines_concat_nl(ls: Seq<Seq<char>>)
    requires
        forall|i: int| 0 <= i < ls.len() ==> plain_line(#[trigger] ls[i]),
    ensures
        lines(concat_nl(ls)) == ls,
    decreases ls.len(),
{
    if ls.len() > 0 {
        let l = ls[0];
        let rest = concat_nl(ls.drop_first());
        let s = concat_nl(ls);
        assert(s == l + seq!['\n'] + rest);
        assert(plain_line(ls[0]));
        assert forall|j: int| 0 <= j < l.len() implies s[j] != '\n' by {
            assert(s[j] == l[j]);
        }
        assert(s[l.len() as int] == '\n');
        lemma_find_is(s, '\n', l.len() as int);
        assert(s.subrange(0, l.len() as int) == l);
        assert(s.subrange(l.len() as int + 1, s.len() as int) == rest);
        assert forall|i: int| 0 <= i < ls.drop_first().len() implies plain_line(#[trigger] ls.drop_first()[i]) by {
            assert(ls.drop_first()[i] == ls[i + 1]);
        }
        lemma_lines_concat_nl(ls.drop_first());
        assert(ls == seq![l] + ls.drop_first());
    }
}

/// A text that neither starts nor ends with whitespace is its own trim.
pub proof fn lemma_trim_id(s: Seq<char>)
    requires
        s.len() > 0 ==> !is_ws(s[0]) && !is_ws(s.last()),
    ensures
        trim(s) == s,
{
}

/// Appends `s` to `out`.
pub fn push_all(out: &mut Vec<char>, s: &[char])
    ensures
        final(out)@ == old(out)@ + s@,
{
    let mut i: usize = 0;
    while i < s.len()
        invariant
            i <= s@.len(),
            out@ == old(out)@ + s@.take(i as int),
        decreases s@.len() - i,
    {
        out.push(s[i]);
        assert(s@.take(i + 1) == s@.take(i as int).push(s@[i as int]));
        i = i + 1;
    }
    assert(s@.take(s@.len() as int) == s@);
}

/// Position of the first `x` in `s`, or `s.len()` when `s` holds none.
pub open spec fn position_of<A>(s: Seq<A>, x: A) -> int
    decreases s.len(),
{
    if s.len() == 0 {
        0
    } else if s[0] == x {
        0
    } else {
        1 + position_of(s.drop_first(), x)
    }
}

/// `position_of` lies within `s`, and below `s.len()` exactly when `s` holds
/// `x`, which then stands there.
pub proof fn lemma_position_bound<A>(s: Seq<A>, x: A)
    ensures
        0 <= position_of(s, x) <= s.len(),
        position_of(s, x) < s.len() ==> s[position_of(s, x)] == x,
        forall|j: int| 0 <= j < position_of(s, x) ==> s[j] != x,
    decreases s.len(),
{
    if s.len() > 0 && s[0] != x {
        lemma_position_bound(s.drop_first(), x);
        assert forall|j: int| 0 <= j < position_of(s, x) implies s[j] != x by {
            if j > 0 {
                assert(s[j] == s.drop_first()[j - 1]);
            }
        }
    }
}

/// `position_of` is the first position holding `x`.
pub proof fn lemma_position_is<A>(s: Seq<A>, x: A, k: int)
    requires
        0 <= k <= s.len(),
        forall|j: int| 0 <= j < k ==> s[j] != x,
        k < s.len() ==> s[k] == x,
    ensures
        position_of(s, x) == k,
    decreases s.len(),
{
    if s.len() > 0 && k > 0 {
        assert(s[0] != x);
        assert forall|j: int| 0 <= j < k - 1 implies s.drop_first()[j] != x by {
            assert(s.drop_first()[j] == s[j + 1]);
        }
        lemma_position_is(s.drop_first(), x, k - 1);
    }
}

} // verus!
