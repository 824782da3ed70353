//! The text format of a saved configuration. A record is written one field
//! per line as `name: value`; a value of several lines is written as `name:`
//! followed by its lines, each indented by four spaces. Reading a record
//! trims each line, takes the key before the first `':'` and, when the rest of
//! the line is blank, gathers the following lines up to the next line whose
//! key is one of the record's fields.
use vstd::prelude::*;

use crate::text::{
    chars_of, concat_nl, find, find_char, is_ws, lacks, lemma_find_is, lemma_lines_concat_nl,
    lemma_position_is, lemma_trim_id, lines, lines_of, plain_line, position_of, push_all,
    slice_range, split_once, string_of, trim, trim_bounds, trim_end, trim_start, views,
};

verus! {

/// The key of a line: the trimmed text before the first `':'` of the trimmed
/// line.
pub open spec fn key_of(line: Seq<char>) -> Option<Seq<char>> {
    match split_once(trim(line), ':') {
        Some((k, _)) => Some(trim(k)),
        None => None,
    }
}

/// A line whose key is one of the fields `fs`.
pub open spec fn is_top(line: Seq<char>, fs: Seq<Seq<char>>) -> bool {
    match key_of(line) {
        Some(k) => position_of(fs, k) < fs.len(),
        None => false,
    }
}

/// The number of leading lines of `ls` that are not field lines.
pub open spec fn block_len(ls: Seq<Seq<char>>, fs: Seq<Seq<char>>) -> int
    decreases ls.len(),
{
    if ls.len() == 0 {
        0
    } else if is_top(ls[0], fs) {
        0
    } else {
        1 + block_len(ls.drop_first(), fs)
    }
}

pub proof fn lemma_block_len_bound(ls: Seq<Seq<char>>, fs: Seq<Seq<char>>)
    ensures
        0 <= block_len(ls, fs) <= ls.len(),
    decreases ls.len(),
{
    if ls.len() > 0 {
        lemma_block_len_bound(ls.drop_first(), fs);
    }
}

/// `block_len` is the first field line.
proof fn lemma_block_len_is(ls: Seq<Seq<char>>, fs: Seq<Seq<char>>, n: int)
    requires
        0 <= n <= ls.len(),
        forall|m: int| 0 <= m < n ==> !is_top(#[trigger] ls[m], fs),
        n < ls.len() ==> is_top(ls[n], fs),
    ensures
        block_len(ls, fs) == n,
    decreases ls.len(),
{
    if ls.len() > 0 && n > 0 {
        assert(!is_top(ls[0], fs));
        assert forall|m: int| 0 <= m < n - 1 implies !is_top(#[trigger] ls.drop_first()[m], fs) by {
            assert(ls.drop_first()[m] == ls[m + 1]);
        }
        lemma_block_len_is(ls.drop_first(), fs, n - 1);
    }
}

/// The lines `ls` joined by `'\n'`, with no line ending after the last.
pub open spec fn join_lines(ls: Seq<Seq<char>>) -> Seq<char>
    decreases ls.len(),
{
    if ls.len() == 0 {
        seq![]
    } else if ls.len() == 1 {
        ls[0]
    } else {
        join_lines(ls.drop_last()) + seq!['\n'] + ls.last()
    }
}

/// The fields that a record's lines assign, in order: the field's position
/// among `fs` and the text it is read from. Blank lines, lines without `':'`
/// and lines whose key is not a field are passed over.
pub open spec fn assignments(ls: Seq<Seq<char>>, fs: Seq<Seq<char>>) -> Seq<(int, Seq<char>)>
    decreases ls.len(),
{
    if ls.len() == 0 {
        seq![]
    } else {
        let t = trim(ls[0]);
        let rest = ls.drop_first();
        if t.len() == 0 {
            assignments(rest, fs)
        } else {
            match split_once(t, ':') {
                None => assignments(rest, fs),
                Some((k, r)) => {
                    let i = position_of(fs, trim(k));
                    if i >= fs.len() {
                        assignments(rest, fs)
                    } else if trim(r).len() > 0 {
                        seq![(i, trim(r))] + assignments(rest, fs)
                    } else {
                        let n = block_len(rest, fs);
                        proof {
                            lemma_block_len_bound(rest, fs);
                        }
                        seq![(i, join_lines(rest.take(n)))] + assignments(rest.skip(n), fs)
                    }
                },
            }
        }
    }
}

/// One step of `assignments` on a field line with a value on the same line.
proof fn lemma_assign_inline(ls: Seq<Seq<char>>, fs: Seq<Seq<char>>, k: int)
    requires
        ls.len() > 0,
        0 <= k < trim(ls[0]).len(),
        find(trim(ls[0]), ':') == k,
        position_of(fs, trim(trim(ls[0]).subrange(0, k))) < fs.len(),
        trim(trim(ls[0]).subrange(k + 1, trim(ls[0]).len() as int)).len() > 0,
    ensures
        assignments(ls, fs) == seq![(position_of(fs, trim(trim(ls[0]).subrange(0, k))),
            trim(trim(ls[0]).subrange(k + 1, trim(ls[0]).len() as int)))] + assignments(ls.drop_first(), fs),
{
    let t = trim(ls[0]);
    assert(split_once(t, ':') == Some((t.subrange(0, k), t.subrange(k + 1, t.len() as int))));
}

/// One step of `assignments` on a field line whose value follows on the next
/// lines.
proof fn lemma_assign_block(ls: Seq<Seq<char>>, fs: Seq<Seq<char>>, k: int)
    requires
        ls.len() > 0,
        0 <= k < trim(ls[0]).len(),
        find(trim(ls[0]), ':') == k,
        position_of(fs, trim(trim(ls[0]).subrange(0, k))) < fs.len(),
        trim(trim(ls[0]).subrange(k + 1, trim(ls[0]).len() as int)).len() == 0,
    ensures
        assignments(ls, fs) == seq![(position_of(fs, trim(trim(ls[0]).subrange(0, k))),
            join_lines(ls.drop_first().take(block_len(ls.drop_first(), fs))))]
            + assignments(ls.drop_first().skip(block_len(ls.drop_first(), fs)), fs),
{
    let t = trim(ls[0]);
    assert(split_once(t, ':') == Some((t.subrange(0, k), t.subrange(k + 1, t.len() as int))));
}

/// Every assignment names one of the fields.
pub proof fn lemma_assignments_bounds(ls: Seq<Seq<char>>, fs: Seq<Seq<char>>)
    ensures
        forall|j: int| 0 <= j < assignments(ls, fs).len() ==>
            0 <= (#[trigger] assignments(ls, fs)[j]).0 < fs.len(),
    decreases ls.len(),
{
    if ls.len() > 0 {
        let t = trim(ls[0]);
        let rest = ls.drop_first();
        lemma_assignments_bounds(rest, fs);
        lemma_block_len_bound(rest, fs);
        let n = block_len(rest, fs);
        lemma_assignments_bounds(rest.skip(n), fs);
        if t.len() > 0 {
            match split_once(t, ':') {
                Some((k, r)) => {
                    lemma_position_nonneg(fs, trim(k));
                    let i = position_of(fs, trim(k));
                    if i < fs.len() {
                        let tail = if trim(r).len() > 0 { assignments(rest, fs) } else { assignments(rest.skip(n), fs) };
                        let head = if trim(r).len() > 0 { trim(r) } else { join_lines(rest.take(n)) };
                        assert(assignments(ls, fs) == seq![(i, head)] + tail);
                        assert forall|j: int| 0 <= j < assignments(ls, fs).len() implies
                            0 <= (#[trigger] assignments(ls, fs)[j]).0 < fs.len() by {
                            if j > 0 {
                                assert(assignments(ls, fs)[j] == tail[j - 1]);
                            }
                        }
                    } else {
                        assert(assignments(ls, fs) == assignments(rest, fs));
                    }
                },
                None => {
                    assert(assignments(ls, fs) == assignments(rest, fs));
                },
            }
        } else {
            assert(assignments(ls, fs) == assignments(rest, fs));
        }
    }
}

/// `position_of` is never negative.
pub proof fn lemma_position_nonneg<A>(s: Seq<A>, x: A)
    ensures
        0 <= position_of(s, x) <= s.len(),
    decreases s.len(),
{
    if s.len() > 0 {
        lemma_position_nonneg(s.drop_first(), x);
    }
}

/// The text of one field: `name: value` for a one-line value; `name:` and the
/// value's lines indented by four spaces for a longer one; nothing for an
/// empty value.
pub open spec fn field_text(name: Seq<char>, value: Seq<char>) -> Seq<char> {
    let ls = lines(value);
    if ls.len() == 0 {
        seq![]
    } else if ls.len() == 1 {
        name + seq![':', ' '] + ls[0] + seq!['\n']
    } else {
        name + seq![':', '\n'] + indented_text(ls)
    }
}

/// Each line of `ls` indented by four spaces and ended by `'\n'`.
pub open spec fn indented_text(ls: Seq<Seq<char>>) -> Seq<char>
    decreases ls.len(),
{
    if ls.len() == 0 {
        seq![]
    } else {
        indented_text(ls.drop_last()) + seq![' ', ' ', ' ', ' '] + ls.last() + seq!['\n']
    }
}

/// The text of a record: the text of each field, in order.
pub open spec fn record_text(fields: Seq<(Seq<char>, Seq<char>)>) -> Seq<char>
    decreases fields.len(),
{
    if fields.len() == 0 {
        seq![]
    } else {
        record_text(fields.drop_last()) + field_text(fields.last().0, fields.last().1)
    }
}

/// The field names and texts of a list of string pairs.
pub open spec fn pair_views(v: Seq<(String, String)>) -> Seq<(Seq<char>, Seq<char>)> {
    v.map_values(|p: (String, String)| (p.0@, p.1@))
}

/// The positions and texts of a list of assignments.
pub open spec fn assignment_views(v: Seq<(usize, String)>) -> Seq<(int, Seq<char>)> {
    v.map_values(|p: (usize, String)| (p.0 as int, p.1@))
}

fn trimmed(line: &[char]) -> (res: Vec<char>)
    ensures
        res@ == trim(line@),
{
    let (a, b) = trim_bounds(line);
    slice_range(line, a, b)
}

fn chars_equal(a: &[char], b: &[char]) -> (res: bool)
    ensures
        res == (a@ == b@),
{
    if a.len() != b.len() {
        return false;
    }
    let mut i: usize = 0;
    while i < a.len()
        invariant
            i <= a@.len(),
            a@.len() == b@.len(),
            forall|j: int| 0 <= j < i ==> a@[j] == b@[j],
        decreases a@.len() - i,
    {
        if a[i] != b[i] {
            return false;
        }
        i = i + 1;
    }
    assert(a@ =~= b@);
    true
}

/// Position of `key` among `fs`, or `fs.len()`.
fn field_position(fs: &Vec<Vec<char>>, key: &[char]) -> (res: usize)
    ensures
        res == position_of(views(fs@), key@),
        res <= fs@.len(),
        views(fs@).len() == fs@.len(),
{
    let ghost fv = views(fs@);
    let mut i: usize = 0;
    while i < fs.len() && !chars_equal(fs[i].as_slice(), key)
        invariant
            i <= fs@.len(),
            fv == views(fs@),
            forall|j: int| 0 <= j < i ==> fv[j] != key@,
        decreases fs@.len() - i,
    {
        i = i + 1;
    }
    proof {
        lemma_position_is(fv, key@, i as int);
    }
    i
}

/// The key of `line`, if it has one.
fn key_of_line(line: &[char]) -> (res: Option<Vec<char>>)
    ensures
        match res {
            Some(k) => key_of(line@) == Some(k@),
            None => key_of(line@) is None,
        },
{
    let t = trimmed(line);
    let k = find_char(t.as_slice(), ':');
    if k < t.len() {
        let key = slice_range(t.as_slice(), 0, k);
        Some(trimmed(key.as_slice()))
    } else {
        None
    }
}

fn is_top_line(line: &[char], fs: &Vec<Vec<char>>) -> (res: bool)
    ensures
        res == is_top(line@, views(fs@)),
{
    match key_of_line(line) {
        Some(k) => field_position(fs, k.as_slice()) < fs.len(),
        None => false,
    }
}

/// The lines `ls[from..to]` joined by `'\n'`.
fn join_range(ls: &Vec<Vec<char>>, from: usize, to: usize) -> (res: Vec<char>)
    requires
        from <= to <= ls@.len(),
    ensures
        res@ == join_lines(views(ls@).subrange(from as int, to as int)),
{
    let ghost lv = views(ls@);
    let mut out: Vec<char> = Vec::new();
    let mut m: usize = from;
    while m < to
        invariant
            from <= m <= to,
            to <= ls@.len(),
            lv == views(ls@),
            out@ == join_lines(lv.subrange(from as int, m as int)),
        decreases to - m,
    {
        let ghost part = lv.subrange(from as int, m + 1);
        assert(part.drop_last() == lv.subrange(from as int, m as int));
        assert(part.last() == ls@[m as int]@);
        if m > from {
            out.push('\n');
        }
        push_all(&mut out, ls[m].as_slice());
        proof {
            if m == from {
                assert(part.len() == 1);
                assert(out@ =~= part[0]);
            } else {
                assert(out@ =~= join_lines(part.drop_last()) + seq!['\n'] + part.last());
            }
        }
        m = m + 1;
    }
    out
}

/// The character vectors of a list of strings.
fn chars_list(names: &Vec<String>) -> (res: Vec<Vec<char>>)
    ensures
        views(res@) == names@.map_values(|s: String| s@),
{
    let mut res: Vec<Vec<char>> = Vec::new();
    let mut i: usize = 0;
    while i < names.len()
        invariant
            i <= names@.len(),
            views(res@) == names@.map_values(|s: String| s@).take(i as int),
        decreases names@.len() - i,
    {
        let c = chars_of(names[i].as_str());
        let ghost before = views(res@);
        res.push(c);
        assert(views(res@) =~= before.push(c@));
        assert(names@.map_values(|s: String| s@)[i as int] == c@);
        assert(views(res@) =~= names@.map_values(|s: String| s@).take(i + 1));
        i = i + 1;
    }
    assert(names@.map_values(|s: String| s@).take(names@.len() as int) =~= names@.map_values(|s: String| s@));
    res
}

/// The fields that the record `text` assigns, in order, each with the
/// position of its name among `names` and the text it is read from.
pub fn parse_record(text: &str, names: &Vec<String>) -> (res: Vec<(usize, String)>)
    ensures
        assignment_views(res@) == assignments(lines(text@), names@.map_values(|s: String| s@)),
{
    let chars = chars_of(text);
    let ls = lines_of(chars.as_slice());
    let fs = chars_list(names);
    let ghost lv = views(ls@);
    let ghost fv = views(fs@);
    let mut out: Vec<(usize, String)> = Vec::new();
    let mut i: usize = 0;
    assert(lv.skip(0) == lv);
    while i < ls.len()
        invariant
            i <= ls@.len(),
            lv == views(ls@),
            lv == lines(text@),
            fv == views(fs@),
            fv == names@.map_values(|s: String| s@),
            assignments(lv, fv) == assignment_views(out@) + assignments(lv.skip(i as int), fv),
        decreases ls@.len() - i,
    {
        let ghost cur = lv.skip(i as int);
        assert(cur[0] == lv[i as int]);
        assert(cur.drop_first() == lv.skip(i + 1));
        let ghost before = assignment_views(out@);
        let t = trimmed(ls[i].as_slice());
        let k = find_char(t.as_slice(), ':');
        if t.len() == 0 || k == t.len() {
            assert(assignments(cur, fv) == assignments(lv.skip(i + 1), fv));
            i = i + 1;
        } else {
            let key = trimmed(slice_range(t.as_slice(), 0, k).as_slice());
            let idx = field_position(&fs, key.as_slice());
            let ghost sp = split_once(t@, ':');
            assert(sp == Some((t@.subrange(0, k as int), t@.subrange(k + 1, t@.len() as int))));
            if idx == fs.len() {
                assert(assignments(cur, fv) == assignments(lv.skip(i + 1), fv));
                i = i + 1;
            } else {
                let rt = trimmed(slice_range(t.as_slice(), k + 1, t.len()).as_slice());
                assert(trim(cur[0]) == t@);
                assert(t@.len() > 0);
                assert(key@ == trim(t@.subrange(0, k as int)));
                assert(position_of(fv, trim(t@.subrange(0, k as int))) == idx);
                assert(rt@ == trim(t@.subrange(k + 1, t@.len() as int)));
                assert(ls.len() > 0);
                if rt.len() > 0 {
                    proof {
                        lemma_assign_inline(cur, fv, k as int);
                    }
                    assert(assignments(cur, fv) == seq![(idx as int, rt@)] + assignments(lv.skip(i + 1), fv));
                    out.push((idx, string_of(rt.as_slice())));
                    assert(assignment_views(out@) =~= before.push((idx as int, rt@)));
                    assert(assignment_views(out@) + assignments(lv.skip(i + 1), fv)
                        =~= before + (seq![(idx as int, rt@)] + assignments(lv.skip(i + 1), fv)));
                    i = i + 1;
                } else {
                    let mut j: usize = i + 1;
                    while j < ls.len() && !is_top_line(ls[j].as_slice(), &fs)
                        invariant
                            i + 1 <= j <= ls@.len(),
                            lv == views(ls@),
                            fv == views(fs@),
                            forall|m: int| i + 1 <= m < j ==> !is_top(#[trigger] lv[m], fv),
                        decreases ls@.len() - j,
                    {
                        j = j + 1;
                    }
                    let ghost rest = lv.skip(i + 1);
                    proof {
                        assert forall|m: int| 0 <= m < j - (i + 1) implies !is_top(#[trigger] rest[m], fv) by {
                            assert(rest[m] == lv[m + i + 1]);
                        }
                        if j < ls.len() {
                            assert(rest[j - (i + 1)] == lv[j as int]);
                        }
                        lemma_block_len_is(rest, fv, j - (i + 1));
                        assert(rest.take(j - (i + 1)) == lv.subrange(i + 1, j as int));
                        assert(rest.skip(j - (i + 1)) == lv.skip(j as int));
                    }
                    proof {
                        lemma_assign_block(cur, fv, k as int);
                    }
                    assert(assignments(cur, fv) == seq![(idx as int, join_lines(rest.take(j - (i + 1))))]
                        + assignments(rest.skip(j - (i + 1)), fv));
                    let block = join_range(&ls, i + 1, j);
                    out.push((idx, string_of(block.as_slice())));
                    assert(assignment_views(out@) =~= before.push((idx as int, block@)));
                    assert(assignment_views(out@) + assignments(lv.skip(j as int), fv)
                        =~= before + (seq![(idx as int, block@)] + assignments(lv.skip(j as int), fv)));
                    i = j;
                }
            }
        }
    }
    assert(lv.skip(ls@.len() as int) =~= Seq::<Seq<char>>::empty());
    assert(assignment_views(out@) + Seq::<(int, Seq<char>)>::empty() =~= assignment_views(out@));
    out
}

/// The text of the record whose fields are the `(name, value)` pairs
/// `fields`, in order.
pub fn format_record(fields: &Vec<(String, String)>) -> (res: String)
    ensures
        res@ == record_text(pair_views(fields@)),
{
    let ghost pv = pair_views(fields@);
    let mut out: Vec<char> = Vec::new();
    let mut i: usize = 0;
    while i < fields.len()
        invariant
            i <= fields@.len(),
            pv == pair_views(fields@),
            out@ == record_text(pv.take(i as int)),
        decreases fields@.len() - i,
    {
        let ghost before = out@;
        assert(pv.take(i + 1).drop_last() == pv.take(i as int));
        assert(pv.take(i + 1).last() == pv[i as int]);
        let name = chars_of(fields[i].0.as_str());
        let value = chars_of(fields[i].1.as_str());
        let vls = lines_of(value.as_slice());
        let ghost vl = views(vls@);
        if vls.len() == 1 {
            push_all(&mut out, name.as_slice());
            out.push(':');
            out.push(' ');
            push_all(&mut out, vls[0].as_slice());
            out.push('\n');
            assert(out@ =~= before + field_text(name@, value@));
        } else if vls.len() > 1 {
            push_all(&mut out, name.as_slice());
            out.push(':');
            out.push('\n');
            let ghost head = out@;
            let mut m: usize = 0;
            while m < vls.len()
                invariant
                    m <= vls@.len(),
                    vl == views(vls@),
                    out@ == head + indented_text(vl.take(m as int)),
                decreases vls@.len() - m,
            {
                assert(vl.take(m + 1).drop_last() == vl.take(m as int));
                assert(vl.take(m + 1).last() == vls@[m as int]@);
                let ghost b = out@;
                out.push(' ');
                out.push(' ');
                out.push(' ');
                out.push(' ');
                push_all(&mut out, vls[m].as_slice());
                out.push('\n');
                assert(out@ =~= head + indented_text(vl.take(m + 1)));
                m = m + 1;
            }
            assert(vl.take(vl.len() as int) == vl);
            assert(out@ =~= before + field_text(name@, value@));
        } else {
            assert(out@ =~= before + field_text(name@, value@));
        }
        i = i + 1;
    }
    assert(pv.take(fields@.len() as int) == pv);
    string_of(out.as_slice())
}


/// A field name that reads back as itself: not empty, no `':'` or `'\n'`,
/// no whitespace at either end.
pub open spec fn good_name(n: Seq<char>) -> bool {
    &&& n.len() > 0
    &&& lacks(n, ':')
    &&& lacks(n, '\n')
    &&& !is_ws(n[0])
    &&& !is_ws(n.last())
}

/// A one-line value that reads back as itself: not empty, no `'\n'`, no
/// whitespace at either end.
pub open spec fn good_value(v: Seq<char>) -> bool {
    &&& v.len() > 0
    &&& lacks(v, '\n')
    &&& !is_ws(v[0])
    &&& !is_ws(v.last())
}

/// Indentation: whitespace other than `'\n'`.
pub open spec fn indentation(ind: Seq<char>) -> bool {
    forall|i: int| 0 <= i < ind.len() ==> is_ws(#[trigger] ind[i]) && ind[i] != '\n'
}

/// The line `{ind}{name}: {value}`.
pub open spec fn flat_line(ind: Seq<char>, name: Seq<char>, value: Seq<char>) -> Seq<char> {
    ind + name + seq![':', ' '] + value
}

/// One `flat_line` per field.
pub open spec fn flat_lines(ind: Seq<char>, fs: Seq<(Seq<char>, Seq<char>)>) -> Seq<Seq<char>> {
    fs.map_values(|f: (Seq<char>, Seq<char>)| flat_line(ind, f.0, f.1))
}

/// Fields whose names and values all read back as themselves.
pub open spec fn good_fields(fs: Seq<(Seq<char>, Seq<char>)>) -> bool {
    forall|j: int| 0 <= j < fs.len() ==> good_name((#[trigger] fs[j]).0) && good_value(fs[j].1)
}

/// The assignments that the lines of fields `fs` give, named among `names`.
pub open spec fn expected_assignments(fs: Seq<(Seq<char>, Seq<char>)>, names: Seq<Seq<char>>) -> Seq<(int, Seq<char>)> {
    fs.map_values(|f: (Seq<char>, Seq<char>)| (position_of(names, f.0), f.1))
}

/// Leading indentation does not change a trimmed line.
pub proof fn lemma_trim_indent(ind: Seq<char>, x: Seq<char>)
    requires
        forall|i: int| 0 <= i < ind.len() ==> is_ws(#[trigger] ind[i]),
    ensures
        trim(ind + x) == trim(x),
    decreases ind.len(),
{
    if ind.len() > 0 {
        assert((ind + x)[0] == ind[0]);
        assert((ind + x).drop_first() == ind.drop_first() + x);
        assert forall|i: int| 0 <= i < ind.drop_first().len() implies is_ws(#[trigger] ind.drop_first()[i]) by {
            assert(ind.drop_first()[i] == ind[i + 1]);
        }
        lemma_trim_indent(ind.drop_first(), x);
        assert(trim_start(ind + x) == trim_start(ind.drop_first() + x));
    } else {
        assert(ind + x == x);
    }
}

/// The key of a field line is its name, and the rest of the line its value.
pub proof fn lemma_flat_line(ind: Seq<char>, n: Seq<char>, v: Seq<char>)
    requires
        indentation(ind),
        good_name(n),
        good_value(v),
    ensures
        trim(flat_line(ind, n, v)) == n + seq![':', ' '] + v,
        find(trim(flat_line(ind, n, v)), ':') == n.len(),
        trim(flat_line(ind, n, v)).subrange(0, n.len() as int) == n,
        trim(n) == n,
        trim(trim(flat_line(ind, n, v)).subrange(n.len() as int + 1, trim(flat_line(ind, n, v)).len() as int)) == v,
        key_of(flat_line(ind, n, v)) == Some(n),
        plain_line(flat_line(ind, n, v)),
{
    let x = n + seq![':', ' '] + v;
    assert(flat_line(ind, n, v) == ind + x);
    lemma_trim_indent(ind, x);
    assert(x[0] == n[0]);
    assert(x.last() == v.last());
    lemma_trim_id(x);
    assert forall|j: int| 0 <= j < n.len() implies x[j] != ':' by {
        assert(x[j] == n[j]);
    }
    assert(x[n.len() as int] == ':');
    lemma_find_is(x, ':', n.len() as int);
    assert(x.subrange(0, n.len() as int) == n);
    lemma_trim_id(n);
    assert(x.subrange(n.len() as int + 1, x.len() as int) == seq![' '] + v);
    assert forall|i: int| 0 <= i < seq![' '].len() implies is_ws(#[trigger] seq![' '][i]) by {}
    lemma_trim_indent(seq![' '], v);
    lemma_trim_id(v);
    assert(split_once(x, ':') == Some((n, seq![' '] + v)));
    let l = flat_line(ind, n, v);
    assert forall|j: int| 0 <= j < l.len() implies l[j] != '\n' by {
        if j < ind.len() {
            assert(l[j] == ind[j]);
        } else if j < ind.len() + n.len() {
            assert(l[j] == n[j - ind.len()]);
        } else if j >= ind.len() + n.len() + 2 {
            assert(l[j] == v[j - ind.len() - n.len() - 2]);
        }
    }
    assert(l.last() == v.last());
}

/// Lines of fields with one-line values assign those values, in order.
pub proof fn lemma_flat_assignments(
    ind: Seq<char>,
    fs: Seq<(Seq<char>, Seq<char>)>,
    names: Seq<Seq<char>>,
    tail: Seq<Seq<char>>,
)
    requires
        indentation(ind),
        good_fields(fs),
        forall|j: int| 0 <= j < fs.len() ==> position_of(names, (#[trigger] fs[j]).0) < names.len(),
    ensures
        assignments(flat_lines(ind, fs) + tail, names) == expected_assignments(fs, names) + assignments(tail, names),
    decreases fs.len(),
{
    if fs.len() == 0 {
        assert(flat_lines(ind, fs) + tail == tail);
        assert(expected_assignments(fs, names) + assignments(tail, names) == assignments(tail, names));
    } else {
        let ls = flat_lines(ind, fs) + tail;
        let f = fs[0];
        assert(good_name(f.0) && good_value(f.1));
        assert(ls[0] == flat_line(ind, f.0, f.1));
        lemma_flat_line(ind, f.0, f.1);
        lemma_assign_inline(ls, names, f.0.len() as int);
        assert(ls.drop_first() == flat_lines(ind, fs.drop_first()) + tail);
        assert forall|j: int| 0 <= j < fs.drop_first().len() implies good_name((#[trigger] fs.drop_first()[j]).0)
            && good_value(fs.drop_first()[j].1) && position_of(names, fs.drop_first()[j].0) < names.len() by {
            assert(fs.drop_first()[j] == fs[j + 1]);
        }
        lemma_flat_assignments(ind, fs.drop_first(), names, tail);
        assert(expected_assignments(fs, names) =~= seq![(position_of(names, f.0), f.1)]
            + expected_assignments(fs.drop_first(), names));
    }
}

/// A field line followed by the indented lines of its value, none of which is
/// a field line, assigns the joined value lines.
pub proof fn lemma_block_assignment(
    ind: Seq<char>,
    n: Seq<char>,
    block: Seq<Seq<char>>,
    names: Seq<Seq<char>>,
    tail: Seq<Seq<char>>,
)
    requires
        indentation(ind),
        good_name(n),
        position_of(names, n) < names.len(),
        forall|m: int| 0 <= m < block.len() ==> !is_top(#[trigger] block[m], names),
        tail.len() > 0 ==> is_top(tail[0], names),
    ensures
        assignments(seq![ind + n + seq![':']] + block + tail, names)
            == seq![(position_of(names, n), join_lines(block))] + assignments(tail, names),
{
    let h = ind + n + seq![':'];
    let x = n + seq![':'];
    assert(h == ind + x);
    lemma_trim_indent(ind, x);
    assert(x[0] == n[0]);
    lemma_trim_id(x);
    assert forall|j: int| 0 <= j < n.len() implies x[j] != ':' by {
        assert(x[j] == n[j]);
    }
    lemma_find_is(x, ':', n.len() as int);
    assert(x.subrange(0, n.len() as int) == n);
    lemma_trim_id(n);
    assert(x.subrange(n.len() as int + 1, x.len() as int) == Seq::<char>::empty());
    let ls = seq![h] + block + tail;
    assert(ls[0] == h);
    lemma_assign_block(ls, names, n.len() as int);
    let rest = ls.drop_first();
    assert(rest == block + tail);
    assert forall|m: int| 0 <= m < block.len() implies !is_top(#[trigger] rest[m], names) by {
        assert(rest[m] == block[m]);
    }
    if tail.len() > 0 {
        assert(rest[block.len() as int] == tail[0]);
    }
    lemma_block_len_is(rest, names, block.len() as int);
    assert(rest.take(block.len() as int) == block);
    assert(rest.skip(block.len() as int) == tail);
}

/// Text written one line per line reads back as those lines, joined.
pub proof fn lemma_join_front(ls: Seq<Seq<char>>)
    requires
        ls.len() >= 2,
    ensures
        join_lines(ls) == ls[0] + seq!['\n'] + join_lines(ls.drop_first()),
    decreases ls.len(),
{
    if ls.len() > 2 {
        lemma_join_front(ls.drop_last());
        assert(ls.drop_last().drop_first() == ls.drop_first().drop_last());
        assert(ls.drop_first().last() == ls.last());
        assert(ls.drop_last()[0] == ls[0]);
        let df = ls.drop_first();
        assert(join_lines(df) == join_lines(df.drop_last()) + seq!['\n'] + df.last());
        assert(join_lines(ls) =~= ls[0] + seq!['\n'] + join_lines(ls.drop_first()));
    } else {
        assert(ls.drop_last() == seq![ls[0]]);
        assert(ls.drop_first() == seq![ls[1]]);
        assert(join_lines(ls.drop_last()) == ls[0]);
        assert(join_lines(ls.drop_first()) == ls[1]);
        assert(join_lines(ls) =~= ls[0] + seq!['\n'] + join_lines(ls.drop_first()));
    }
}

/// Lines joined by `'\n'` split back into the same lines.
pub proof fn lemma_lines_join(ls: Seq<Seq<char>>)
    requires
        ls.len() > 0,
        forall|i: int| 0 <= i < ls.len() ==> plain_line(#[trigger] ls[i]),
        ls.last().len() > 0,
    ensures
        lines(join_lines(ls)) == ls,
    decreases ls.len(),
{
    if ls.len() == 1 {
        let l = ls[0];
        assert(plain_line(ls[0]));
        lemma_find_is(l, '\n', l.len() as int);
        assert(ls == seq![l]);
    } else {
        lemma_join_front(ls);
        let l = ls[0];
        let rest = join_lines(ls.drop_first());
        let s = join_lines(ls);
        assert(plain_line(ls[0]));
        assert forall|j: int| 0 <= j < l.len() implies s[j] != '\n' by {
            assert(s[j] == l[j]);
        }
        assert(s[l.len() as int] == '\n');
        lemma_find_is(s, '\n', l.len() as int);
        assert(s.subrange(0, l.len() as int) == l);
        assert(s.subrange(l.len() as int + 1, s.len() as int) == rest);
        assert forall|i: int| 0 <= i < ls.drop_first().len() implies plain_line(#[trigger] ls.drop_first()[i]) by {
            assert(ls.drop_first()[i] == ls[i + 1]);
        }
        lemma_lines_join(ls.drop_first());
        assert(ls == seq![l] + ls.drop_first());
    }
}

/// Appending lines appends their texts.
pub proof fn lemma_concat_nl_append(a: Seq<Seq<char>>, b: Seq<Seq<char>>)
    ensures
        concat_nl(a + b) == concat_nl(a) + concat_nl(b),
    decreases a.len(),
{
    if a.len() > 0 {
        lemma_concat_nl_append(a.drop_first(), b);
        assert((a + b).drop_first() == a.drop_first() + b);
        assert((a + b)[0] == a[0]);
        assert(a[0] + seq!['\n'] + (concat_nl(a.drop_first()) + concat_nl(b))
            =~= a[0] + seq!['\n'] + concat_nl(a.drop_first()) + concat_nl(b));
    } else {
        assert(a + b == b);
        assert(concat_nl(a) + concat_nl(b) =~= concat_nl(b));
    }
}

/// A one-line value is its own only line.
pub proof fn lemma_lines_one(v: Seq<char>)
    requires
        v.len() > 0,
        lacks(v, '\n'),
    ensures
        lines(v) == seq![v],
{
    lemma_find_is(v, '\n', v.len() as int);
}

/// The text of fields with one-line values is their lines.
pub proof fn lemma_flat_record_text(ind: Seq<char>, fs: Seq<(Seq<char>, Seq<char>)>)
    requires
        good_fields(fs),
        ind.len() == 0,
    ensures
        record_text(fs) == concat_nl(flat_lines(ind, fs)),
    decreases fs.len(),
{
    if fs.len() > 0 {
        lemma_flat_record_text(ind, fs.drop_last());
        let f = fs.last();
        assert(good_name(fs[fs.len() - 1].0) && good_value(fs[fs.len() - 1].1));
        lemma_lines_one(f.1);
        assert(flat_lines(ind, fs) == flat_lines(ind, fs.drop_last()).push(flat_line(ind, f.0, f.1)));
        assert forall|j: int| 0 <= j < fs.drop_last().len() implies good_name((#[trigger] fs.drop_last()[j]).0)
            && good_value(fs.drop_last()[j].1) by {
            assert(fs.drop_last()[j] == fs[j]);
        }
        crate::text::lemma_concat_nl_push(flat_lines(ind, fs.drop_last()), flat_line(ind, f.0, f.1));
        assert(field_text(f.0, f.1) =~= flat_line(ind, f.0, f.1) + seq!['\n']);
        assert(record_text(fs) =~= concat_nl(flat_lines(ind, fs)));
    } else {
        assert(flat_lines(ind, fs) == Seq::<Seq<char>>::empty());
    }
}


/// The text of two lists of fields is the text of each, in turn.
pub proof fn lemma_record_text_append(a: Seq<(Seq<char>, Seq<char>)>, b: Seq<(Seq<char>, Seq<char>)>)
    ensures
        record_text(a + b) == record_text(a) + record_text(b),
    decreases b.len(),
{
    if b.len() > 0 {
        lemma_record_text_append(a, b.drop_last());
        assert((a + b).drop_last() == a + b.drop_last());
        assert((a + b).last() == b.last());
        assert(record_text(a + b) =~= record_text(a) + record_text(b));
    } else {
        assert(a + b == a);
        assert(record_text(a) + record_text(b) =~= record_text(a));
    }
}

/// Four spaces.
pub open spec fn four_spaces() -> Seq<char> {
    seq![' ', ' ', ' ', ' ']
}

/// `indented_text` writes each line behind four spaces.
pub proof fn lemma_indented_text(ls: Seq<Seq<char>>)
    ensures
        indented_text(ls) == concat_nl(ls.map_values(|l: Seq<char>| four_spaces() + l)),
    decreases ls.len(),
{
    if ls.len() > 0 {
        lemma_indented_text(ls.drop_last());
        let m = ls.map_values(|l: Seq<char>| four_spaces() + l);
        assert(m == ls.drop_last().map_values(|l: Seq<char>| four_spaces() + l).push(four_spaces() + ls.last()));
        crate::text::lemma_concat_nl_push(ls.drop_last().map_values(|l: Seq<char>| four_spaces() + l), four_spaces() + ls.last());
        assert(indented_text(ls) =~= concat_nl(m));
    } else {
        assert(ls.map_values(|l: Seq<char>| four_spaces() + l) == Seq::<Seq<char>>::empty());
    }
}

/// The text of a field whose value is a record of at least two one-line
/// fields: the field's name and `':'`, then the record's lines indented.
pub proof fn lemma_nested_field_text(n: Seq<char>, fs: Seq<(Seq<char>, Seq<char>)>)
    requires
        good_fields(fs),
        fs.len() >= 2,
    ensures
        field_text(n, record_text(fs)) == concat_nl(seq![n + seq![':']] + flat_lines(four_spaces(), fs)),
{
    let e = Seq::<char>::empty();
    lemma_flat_record_text(e, fs);
    let ls = flat_lines(e, fs);
    assert forall|i: int| 0 <= i < ls.len() implies plain_line(#[trigger] ls[i]) by {
        assert(good_name(fs[i].0) && good_value(fs[i].1));
        lemma_flat_line(e, fs[i].0, fs[i].1);
    }
    lemma_lines_concat_nl(ls);
    lemma_indented_text(ls);
    let m = ls.map_values(|l: Seq<char>| four_spaces() + l);
    assert(m =~= flat_lines(four_spaces(), fs)) by {
        assert forall|i: int| 0 <= i < ls.len() implies #[trigger] m[i] == flat_lines(four_spaces(), fs)[i] by {
            assert(four_spaces() + flat_line(e, fs[i].0, fs[i].1) =~= flat_line(four_spaces(), fs[i].0, fs[i].1));
        }
    }
    let h = seq![n + seq![':']];
    lemma_concat_nl_append(h, flat_lines(four_spaces(), fs));
    assert(h.drop_first() == Seq::<Seq<char>>::empty());
    assert(concat_nl(h) == (n + seq![':']) + seq!['\n'] + concat_nl(Seq::<Seq<char>>::empty()));
    assert(lines(record_text(fs)) == ls);
    assert(field_text(n, record_text(fs)) == n + seq![':', '\n'] + indented_text(ls));
    assert(indented_text(ls) == concat_nl(flat_lines(four_spaces(), fs)));
    assert(field_text(n, record_text(fs)) =~= concat_nl(h) + concat_nl(flat_lines(four_spaces(), fs)));
}

} // verus!
