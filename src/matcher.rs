//! Literal and indentation-normalized matching, and line-indexed edits.
use vstd::prelude::*;
use crate::text::{
    byte_len, byte_offset, chars_of, count_from, count_occ, find_first, interleave,
    lemma_find_from, matches_at, occurs_at, push_all, replace_all_spec, replace_first_spec, replace_from,
    slice_chars, string_of, find_sub, has_sub, lines_of, views, contains_sub, lines_of_str,
    trim_end, trim, trim_end_chars, dec, lead_ws, spaces, trim_start, leading_ws_count,
    push_repeat, trim_start_chars, utf8_width, terminated, lemma_lines_len, str_byte_len, line_start, line_start_index, line_end, line_end_index,
    lemma_line_bounds, terminate_range, lemma_byte_len_take_step, lemma_byte_len_take_mono, push_dec, push_str_chars, same_chars, join_range, trim_chars, join_nl, join_lines, split_lines,
};

verus! {

/// Byte offset of the first occurrence of `search` in `content`.
pub fn find_literal(content: &str, search: &str) -> (r: Option<usize>)
    ensures
        match find_first(content@, search@) {
            Some(k) => r == Some(byte_len(content@.take(k)) as usize),
            None => r is None,
        },
{
    // the byte offsets below fit in usize
    let _ = str_byte_len(content);
    let c = chars_of(content);
    let s = chars_of(search);
    match find_sub(&c, &s) {
        Some(k) => {
            proof {
                lemma_find_from(c@, s@, 0);
            }
            Some(byte_offset(&c, k))
        },
        None => None,
    }
}

/// Counts the non-overlapping occurrences of a non-empty `p` in `s`.
pub fn count_in(s: &Vec<char>, p: &Vec<char>) -> (r: usize)
    requires
        p.len() > 0,
    ensures
        r == count_from(s@, p@, 0),
        r <= s.len(),
{
    let mut count: usize = 0;
    let mut i: usize = 0;
    while i < s.len()
        invariant
            p.len() > 0,
            i <= s.len(),
            count <= i,
            count + count_from(s@, p@, i as int) == count_from(s@, p@, 0),
        decreases s.len() - i,
    {
        if occurs_at(s, p, i) {
            count = count + 1;
            i = i + p.len();
        } else {
            i = i + 1;
        }
    }
    count
}

/// Number of occurrences of `search` in `content`.
pub fn count_occurrences(content: &str, search: &str) -> (r: usize)
    requires
        content@.len() < usize::MAX,
    ensures
        r == count_occ(content@, search@),
{
    let c = chars_of(content);
    let s = chars_of(search);
    if s.len() == 0 {
        c.len() + 1
    } else {
        count_in(&c, &s)
    }
}

/// `s` with the first occurrence of `p` replaced by `r`, if there is one.
pub fn replace_first_chars(s: &Vec<char>, p: &Vec<char>, r: &Vec<char>) -> (res: Option<
    Vec<char>,
>)
    ensures
        match replace_first_spec(s@, p@, r@) {
            Some(t) => res matches Some(v) && v@ == t,
            None => res is None,
        },
{
    match find_sub(s, p) {
        Some(k) => {
            proof {
                lemma_find_from(s@, p@, 0);
                assert(matches_at(s@, p@, k as int));
            }
            let mut out = slice_chars(s, 0, k);
            push_all(&mut out, r);
            let tail = slice_chars(s, k + p.len(), s.len());
            push_all(&mut out, &tail);
            assert(out@ =~= s@.take(k as int) + r@ + s@.skip(k + p.len()));
            Some(out)
        },
        None => None,
    }
}

/// Replaces the first occurrence of `search` with `replace`.
pub fn replace_first(content: &str, search: &str, replace: &str) -> (r: Option<String>)
    ensures
        match replace_first_spec(content@, search@, replace@) {
            Some(t) => r matches Some(x) && x@ == t,
            None => r is None,
        },
{
    let c = chars_of(content);
    let s = chars_of(search);
    let rp = chars_of(replace);
    match replace_first_chars(&c, &s, &rp) {
        Some(v) => Some(string_of(&v)),
        None => None,
    }
}

/// `s` with every occurrence of `p` replaced by `r`.
pub fn replace_all_chars(s: &Vec<char>, p: &Vec<char>, r: &Vec<char>) -> (res: Vec<char>)
    ensures
        res@ == replace_all_spec(s@, p@, r@),
{
    let mut out: Vec<char> = Vec::new();
    if p.len() == 0 {
        push_all(&mut out, r);
        let mut i: usize = 0;
        assert(s@.take(0) =~= Seq::<char>::empty());
        while i < s.len()
            invariant
                i <= s.len(),
                out@ == interleave(s@.take(i as int), r@),
            decreases s.len() - i,
        {
            assert(s@.take(i + 1).drop_last() =~= s@.take(i as int));
            out.push(s[i]);
            push_all(&mut out, r);
            i = i + 1;
        }
        assert(s@.take(i as int) =~= s@);
        return out;
    }
    let mut i: usize = 0;
    while i < s.len() && p.len() <= s.len() - i
        invariant
            p.len() > 0,
            i <= s.len(),
            out@ + replace_from(s@, p@, r@, i as int) == replace_from(s@, p@, r@, 0),
        decreases s.len() - i,
    {
        if occurs_at(s, p, i) {
            push_all(&mut out, r);
            i = i + p.len();
        } else {
            out.push(s[i]);
            i = i + 1;
        }
        assert(out@ + replace_from(s@, p@, r@, i as int) =~= replace_from(s@, p@, r@, 0));
    }
    let tail = slice_chars(s, i, s.len());
    push_all(&mut out, &tail);
    out
}

/// Replaces every occurrence of `search` with `replace`.
pub fn replace_all(content: &str, search: &str, replace: &str) -> (r: String)
    ensures
        r@ == replace_all_spec(content@, search@, replace@),
{
    let c = chars_of(content);
    let s = chars_of(search);
    let rp = chars_of(replace);
    let v = replace_all_chars(&c, &s, &rp);
    string_of(&v)
}

} // verus!

verus! {

/// Index of the first line at or after `i` that contains `a`.
pub open spec fn line_with_from(ls: Seq<Seq<char>>, a: Seq<char>, i: int) -> Option<int>
    decreases ls.len() - i,
{
    if i < 0 || i >= ls.len() {
        None
    } else if has_sub(ls[i], a) {
        Some(i)
    } else {
        line_with_from(ls, a, i + 1)
    }
}

/// Index (0-based) of the first line of `content` that contains `anchor`.
pub open spec fn anchor_index(content: Seq<char>, anchor: Seq<char>) -> Option<int> {
    line_with_from(lines_of(content), anchor, 0)
}

pub proof fn lemma_line_with_from(ls: Seq<Seq<char>>, a: Seq<char>, i: int)
    requires
        0 <= i,
    ensures
        match line_with_from(ls, a, i) {
            Some(k) => i <= k < ls.len() && has_sub(ls[k], a) && forall|j: int|
                i <= j < k ==> !has_sub(#[trigger] ls[j], a),
            None => forall|j: int| i <= j < ls.len() ==> !has_sub(#[trigger] ls[j], a),
        },
    decreases ls.len() - i,
{
    if i < ls.len() && !has_sub(ls[i], a) {
        lemma_line_with_from(ls, a, i + 1);
    }
}

/// Index of the first of `ls` that contains `a`.
pub fn first_line_with(ls: &Vec<Vec<char>>, a: &Vec<char>) -> (r: Option<usize>)
    ensures
        r matches Some(k) ==> k < ls.len(),
        match line_with_from(views(ls@), a@, 0) {
            Some(k) => r == Some(k as usize),
            None => r is None,
        },
{
    let mut i: usize = 0;
    while i < ls.len()
        invariant
            i <= ls.len(),
            line_with_from(views(ls@), a@, 0) == line_with_from(views(ls@), a@, i as int),
        decreases ls.len() - i,
    {
        if contains_sub(&ls[i], a) {
            return Some(i);
        }
        i = i + 1;
    }
    None
}

/// Line number (1-based) of the first line of `content` that contains `anchor`.
pub fn find_line_with_anchor(content: &str, anchor: &str) -> (r: Option<usize>)
    ensures
        match anchor_index(content@, anchor@) {
            Some(k) => k + 1 <= content@.len() && r == Some((k + 1) as usize),
            None => r is None,
        },
{
    let ls = lines_of_str(content);
    let a = chars_of(anchor);
    match first_line_with(&ls, &a) {
        Some(k) => {
            proof {
                lemma_line_with_from(views(ls@), a@, 0);
                lemma_lines_len(content@);
            }
            Some(k + 1)
        },
        None => None,
    }
}

pub open spec fn trim_end_all(ls: Seq<Seq<char>>) -> Seq<Seq<char>> {
    ls.map_values(|l: Seq<char>| trim_end(l))
}

pub open spec fn trim_all(ls: Seq<Seq<char>>) -> Seq<Seq<char>> {
    ls.map_values(|l: Seq<char>| trim(l))
}

/// Each line with its trailing whitespace removed.
pub fn trim_end_each(ls: &Vec<Vec<char>>) -> (r: Vec<Vec<char>>)
    ensures
        views(r@) == trim_end_all(views(ls@)),
{
    let mut out: Vec<Vec<char>> = Vec::new();
    let mut i: usize = 0;
    while i < ls.len()
        invariant
            i <= ls.len(),
            out.len() == i,
            views(out@) == trim_end_all(views(ls@)).take(i as int),
        decreases ls.len() - i,
    {
        let t = trim_end_chars(&ls[i]);
        let ghost prev = out@;
        out.push(t);
        proof {
            assert forall|j: int| 0 <= j < i + 1 implies #[trigger] views(out@)[j] == trim_end_all(
                views(ls@),
            )[j] by {
                if j < i {
                    assert(out@[j] == prev[j]);
                    assert(views(prev)[j] == trim_end_all(views(ls@)).take(i as int)[j]);
                }
            }
        }
        i = i + 1;
        assert(views(out@) =~= trim_end_all(views(ls@)).take(i as int));
    }
    assert(trim_end_all(views(ls@)).take(i as int) =~= trim_end_all(views(ls@)));
    out
}

/// Each line with its leading and trailing whitespace removed.
pub fn trim_each(ls: &Vec<Vec<char>>) -> (r: Vec<Vec<char>>)
    ensures
        views(r@) == trim_all(views(ls@)),
{
    let mut out: Vec<Vec<char>> = Vec::new();
    let mut i: usize = 0;
    while i < ls.len()
        invariant
            i <= ls.len(),
            out.len() == i,
            views(out@) == trim_all(views(ls@)).take(i as int),
        decreases ls.len() - i,
    {
        let t = trim_chars(&ls[i]);
        let ghost prev = out@;
        out.push(t);
        proof {
            assert forall|j: int| 0 <= j < i + 1 implies #[trigger] views(out@)[j] == trim_all(
                views(ls@),
            )[j] by {
                if j < i {
                    assert(out@[j] == prev[j]);
                    assert(views(prev)[j] == trim_all(views(ls@)).take(i as int)[j]);
                }
            }
        }
        i = i + 1;
        assert(views(out@) =~= trim_all(views(ls@)).take(i as int));
    }
    assert(trim_all(views(ls@)).take(i as int) =~= trim_all(views(ls@)));
    out
}

/// Every line with trailing whitespace removed, joined with `\n`.
pub fn normalize_whitespace(s: &str) -> (r: String)
    ensures
        r@ == join_nl(trim_end_all(lines_of(s@))),
{
    let ls = lines_of_str(s);
    let t = trim_end_each(&ls);
    let j = join_lines(&t);
    string_of(&j)
}

/// Every line trimmed on both sides, joined with `\n`.
pub open spec fn norm_indent(s: Seq<char>) -> Seq<char> {
    join_nl(trim_all(lines_of(s)))
}

pub fn normalize_indentation_chars(s: &Vec<char>) -> (r: Vec<char>)
    ensures
        r@ == norm_indent(s@),
{
    let ls = split_lines(s);
    let t = trim_each(&ls);
    join_lines(&t)
}

/// Every line trimmed on both sides, joined with `\n`.
pub fn normalize_indentation(s: &str) -> (r: String)
    ensures
        r@ == norm_indent(s@),
{
    let v = chars_of(s);
    let n = normalize_indentation_chars(&v);
    string_of(&n)
}

} // verus!

verus! {

/// The lines of `search` once each is trimmed, as the sliding window compares them.
pub open spec fn norm_lines(s: Seq<char>) -> Seq<Seq<char>> {
    lines_of(norm_indent(s))
}

/// The window of `tl` starting at `i` equals `sl`.
pub open spec fn window_at(tl: Seq<Seq<char>>, sl: Seq<Seq<char>>, i: int) -> bool {
    0 <= i && i + sl.len() <= tl.len() && tl.subrange(i, i + sl.len()) == sl
}

/// The first start at or after `i` of a window of `tl` equal to a non-empty `sl`.
pub open spec fn window_from(tl: Seq<Seq<char>>, sl: Seq<Seq<char>>, i: int) -> Option<int>
    decreases tl.len() + 1 - i,
{
    if sl.len() == 0 || i < 0 || i + sl.len() > tl.len() {
        None
    } else if window_at(tl, sl, i) {
        Some(i)
    } else {
        window_from(tl, sl, i + 1)
    }
}

/// Index (0-based) of the first run of lines of `content` that equals the
/// lines of `search` once both are trimmed.
pub open spec fn shifted_index(content: Seq<char>, search: Seq<char>) -> Option<int> {
    window_from(trim_all(lines_of(content)), norm_lines(search), 0)
}

/// The note given when only the trimmed comparison matched, at 1-based `line`.
pub open spec fn shift_note(line: nat) -> Seq<char> {
    "Exact match failed due to indentation differences. Found matching content at line "@ + dec(
        line,
    ) + " with different whitespace."@
}

pub fn shift_note_text(line: usize) -> (r: Vec<char>)
    ensures
        r@ == shift_note(line as nat),
{
    let mut out: Vec<char> = Vec::new();
    push_str_chars(
        &mut out,
        "Exact match failed due to indentation differences. Found matching content at line ",
    );
    push_dec(&mut out, line);
    push_str_chars(&mut out, " with different whitespace.");
    out
}

/// Whether the window of `tl` at `i` equals `sl`.
pub fn window_matches(tl: &Vec<Vec<char>>, sl: &Vec<Vec<char>>, i: usize) -> (r: bool)
    requires
        i + sl.len() <= tl.len(),
    ensures
        r == window_at(views(tl@), views(sl@), i as int),
{
    let mut j: usize = 0;
    while j < sl.len()
        invariant
            i + sl.len() <= tl.len(),
            j <= sl.len(),
            forall|k: int| 0 <= k < j ==> tl@[i + k]@ == sl@[k]@,
        decreases sl.len() - j,
    {
        if !same_chars(&tl[i + j], &sl[j]) {
            assert(views(tl@).subrange(i as int, i + sl.len())[j as int] != views(sl@)[j as int]);
            return false;
        }
        j = j + 1;
    }
    assert(views(tl@).subrange(i as int, i + sl.len()) =~= views(sl@));
    true
}

/// First start of a window of `tl` equal to `sl`.
pub fn find_window(tl: &Vec<Vec<char>>, sl: &Vec<Vec<char>>) -> (r: Option<usize>)
    ensures
        match r {
            Some(k) => window_from(views(tl@), views(sl@), 0) == Some(k as int),
            None => window_from(views(tl@), views(sl@), 0) is None,
        },
        r matches Some(k) ==> k + sl.len() <= tl.len() && sl.len() > 0,
{
    if sl.len() == 0 || sl.len() > tl.len() {
        return None;
    }
    let last = tl.len() - sl.len();
    let mut i: usize = 0;
    loop
        invariant
            sl.len() > 0,
            i <= last,
            last + sl.len() == tl.len(),
            window_from(views(tl@), views(sl@), 0) == window_from(views(tl@), views(sl@), i as int),
        decreases last - i,
    {
        if window_matches(tl, sl, i) {
            return Some(i);
        }
        if i == last {
            assert(window_from(views(tl@), views(sl@), i + 1) is None);
            return None;
        }
        i = i + 1;
    }
}

/// Outcome of looking for a search string.
#[derive(Debug)]
pub enum FindResult {
    /// Found verbatim at this byte offset.
    Exact(usize),
    /// Found only once every line is trimmed, at this 1-based line.
    NormalizedMatch { warning: String, line_number: usize },
    NotFound,
}

/// Looks for `search` verbatim, then line by line with each line trimmed.
pub fn find_with_normalization(content: &str, search: &str) -> (r: FindResult)
    ensures
        match find_first(content@, search@) {
            Some(k) => r == FindResult::Exact(byte_len(content@.take(k)) as usize),
            None => match shifted_index(content@, search@) {
                Some(i) => r matches FindResult::NormalizedMatch { warning, line_number } && line_number
                    == i + 1 && warning@ == shift_note((i + 1) as nat),
                None => r is NotFound,
            },
        },
{
    // the byte offsets below fit in usize
    let _ = str_byte_len(content);
    let c = chars_of(content);
    let s = chars_of(search);
    match find_sub(&c, &s) {
        Some(k) => {
            proof {
                lemma_find_from(c@, s@, 0);
            }
            return FindResult::Exact(byte_offset(&c, k));
        },
        None => {},
    }
    let cl = split_lines(&c);
    let tl = trim_each(&cl);
    let ns = normalize_indentation_chars(&s);
    let sl = split_lines(&ns);
    match find_window(&tl, &sl) {
        Some(i) => {
            let note = shift_note_text(i + 1);
            FindResult::NormalizedMatch { warning: string_of(&note), line_number: i + 1 }
        },
        None => FindResult::NotFound,
    }
}

/// `count` lines of `content` from the 1-based line `start`, joined with `\n`.
pub open spec fn extract_spec(content: Seq<char>, start: int, count: int) -> Seq<char> {
    let ls = lines_of(content);
    let a = if start > 0 { start - 1 } else { 0 };
    let a2 = if a < ls.len() { a } else { ls.len() as int };
    let b = if count < ls.len() - a2 { a2 + count } else { ls.len() as int };
    join_nl(ls.subrange(a2, b))
}

pub fn extract_lines_chars(content: &Vec<char>, start_line: usize, line_count: usize) -> (r: Vec<
    char,
>)
    ensures
        r@ == extract_spec(content@, start_line as int, line_count as int),
{
    let ls = split_lines(content);
    let a: usize = if start_line > 0 { start_line - 1 } else { 0 };
    let a2: usize = if a < ls.len() { a } else { ls.len() };
    let b: usize = if line_count < ls.len() - a2 { a2 + line_count } else { ls.len() };
    join_range(&ls, a2, b)
}

/// Copies `line_count` lines from the 1-based line `start_line`, keeping their indentation.
pub fn extract_lines(content: &str, start_line: usize, line_count: usize) -> (r: String)
    ensures
        r@ == extract_spec(content@, start_line as int, line_count as int),
{
    let c = chars_of(content);
    let v = extract_lines_chars(&c, start_line, line_count);
    string_of(&v)
}

} // verus!

verus! {

/// A line re-based from indentation `from` to `to`; a line indented less than
/// `from` is kept as it is. Indentation counts leading whitespace characters.
pub open spec fn adjust_line(l: Seq<char>, from: nat, to: nat) -> Seq<char> {
    if lead_ws(l) >= from {
        spaces(to) + spaces((lead_ws(l) - from) as nat) + trim_start(l)
    } else {
        l
    }
}

pub open spec fn adjust_all(ls: Seq<Seq<char>>, from: nat, to: nat) -> Seq<Seq<char>> {
    ls.map_values(|l: Seq<char>| adjust_line(l, from, to))
}

/// Every line of `text` re-based from indentation `from` to `to`.
pub open spec fn adjust_spec(text: Seq<char>, from: nat, to: nat) -> Seq<char> {
    join_nl(adjust_all(lines_of(text), from, to))
}

fn adjust_line_chars(l: &Vec<char>, from: usize, to: usize) -> (r: Vec<char>)
    ensures
        r@ == adjust_line(l@, from as nat, to as nat),
{
    let lead = leading_ws_count(l);
    if lead >= from {
        let mut out: Vec<char> = Vec::new();
        push_repeat(&mut out, ' ', to);
        push_repeat(&mut out, ' ', lead - from);
        let rest = trim_start_chars(l);
        push_all(&mut out, &rest);
        assert(out@ =~= adjust_line(l@, from as nat, to as nat));
        out
    } else {
        let out = slice_chars(l, 0, l.len());
        assert(out@ =~= l@);
        out
    }
}

/// Re-bases the indentation of every line of `text` from `from` to `to`.
fn adjust_indentation(text: &Vec<char>, from: usize, to: usize) -> (r: Vec<char>)
    ensures
        r@ == adjust_spec(text@, from as nat, to as nat),
{
    let ls = split_lines(text);
    let mut out: Vec<Vec<char>> = Vec::new();
    let mut i: usize = 0;
    while i < ls.len()
        invariant
            i <= ls.len(),
            out.len() == i,
            views(out@) == adjust_all(views(ls@), from as nat, to as nat).take(i as int),
        decreases ls.len() - i,
    {
        let t = adjust_line_chars(&ls[i], from, to);
        let ghost prev = out@;
        out.push(t);
        proof {
            assert forall|j: int| 0 <= j < i + 1 implies #[trigger] views(out@)[j] == adjust_all(
                views(ls@),
                from as nat,
                to as nat,
            )[j] by {
                if j < i {
                    assert(out@[j] == prev[j]);
                    assert(views(prev)[j] == adjust_all(views(ls@), from as nat, to as nat).take(
                        i as int,
                    )[j]);
                }
            }
        }
        i = i + 1;
        assert(views(out@) =~= adjust_all(views(ls@), from as nat, to as nat).take(i as int));
    }
    assert(adjust_all(views(ls@), from as nat, to as nat).take(i as int) =~= adjust_all(
        views(ls@),
        from as nat,
        to as nat,
    ));
    join_lines(&out)
}

/// First line of `s`, or nothing when `s` has no lines.
pub open spec fn first_line(s: Seq<char>) -> Seq<char> {
    if lines_of(s).len() > 0 {
        lines_of(s)[0]
    } else {
        Seq::empty()
    }
}

pub fn first_line_chars(s: &Vec<char>) -> (r: Vec<char>)
    ensures
        r@ == first_line(s@),
{
    let ls = split_lines(s);
    if ls.len() > 0 {
        let l = &ls[0];
        slice_chars(l, 0, l.len())
    } else {
        Vec::new()
    }
}

/// `s` with `s[k..k + n]` replaced by `r`.
pub open spec fn splice(s: Seq<char>, k: int, n: int, r: Seq<char>) -> Seq<char> {
    s.take(k) + r + s.skip(k + n)
}

pub fn splice_chars(s: &Vec<char>, k: usize, n: usize, r: &Vec<char>) -> (out: Vec<char>)
    requires
        k + n <= s.len(),
    ensures
        out@ == splice(s@, k as int, n as int, r@),
{
    let mut out = slice_chars(s, 0, k);
    push_all(&mut out, r);
    let tail = slice_chars(s, k + n, s.len());
    push_all(&mut out, &tail);
    assert(out@ =~= splice(s@, k as int, n as int, r@));
    out
}

/// The outcome of a replacement that falls back to trimmed line comparison:
/// the new content and a note on how the search was matched.
pub open spec fn replace_norm_spec(c: Seq<char>, s: Seq<char>, r: Seq<char>) -> Option<
    (Seq<char>, Seq<char>),
> {
    match find_first(c, s) {
        Some(k) => Some((splice(c, k, s.len() as int, r), "Exact match"@)),
        None => match shifted_index(c, s) {
            Some(i) => {
                let ls = lines_of(c);
                let m = lines_of(s).len() as int;
                let cnt = if m < ls.len() - i {
                    m
                } else {
                    ls.len() - i
                };
                let start = line_start(c, i as nat);
                let end = if cnt > 0 {
                    line_end(c, (i + cnt - 1) as nat)
                } else {
                    start
                };
                let si = lead_ws(first_line(s));
                let ai = lead_ws(ls[i]);
                let adjusted = if ai != si {
                    adjust_spec(r, si as nat, ai as nat)
                } else {
                    r
                };
                Some((c.take(start) + adjusted + c.skip(end), shift_note((i + 1) as nat)))
            },
            None => None,
        },
    }
}

pub fn replace_with_normalization_chars(c: &Vec<char>, s: &Vec<char>, r: &Vec<char>) -> (res:
    Option<(Vec<char>, Vec<char>)>)
    ensures
        match replace_norm_spec(c@, s@, r@) {
            Some((t, m)) => res matches Some((x, y)) && x@ == t && y@ == m,
            None => res is None,
        },
{
    match find_sub(c, s) {
        Some(k) => {
            proof {
                lemma_find_from(c@, s@, 0);
            }
            let out = splice_chars(c, k, s.len(), r);
            let mut note: Vec<char> = Vec::new();
            push_str_chars(&mut note, "Exact match");
            assert(note@ =~= "Exact match"@);
            return Some((out, note));
        },
        None => {},
    }
    let cl = split_lines(c);
    let tl = trim_each(&cl);
    let ns = normalize_indentation_chars(s);
    let sl = split_lines(&ns);
    let i = match find_window(&tl, &sl) {
        Some(i) => i,
        None => {
            return None;
        },
    };
    let n = cl.len();
    let m = split_lines(s).len();
    let cnt: usize = if m < n - i { m } else { n - i };
    let start = line_start_index(c, i);
    let end: usize = if cnt > 0 {
        proof {
            lemma_line_bounds(c@, i as nat, (i + cnt - 1) as nat);
        }
        line_end_index(c, i + cnt - 1)
    } else {
        start
    };
    let sf = first_line_chars(s);
    let si = leading_ws_count(&sf);
    let ai = leading_ws_count(&cl[i]);
    let adjusted = if ai != si {
        adjust_indentation(r, si, ai)
    } else {
        slice_chars(r, 0, r.len())
    };
    assert(si != ai || adjusted@ =~= r@);
    let mut out = slice_chars(c, 0, start);
    push_all(&mut out, &adjusted);
    let tail = slice_chars(c, end, c.len());
    push_all(&mut out, &tail);
    assert(out@ =~= c@.take(start as int) + adjusted@ + c@.skip(end as int));
    let note = shift_note_text(i + 1);
    Some((out, note))
}

/// Replaces the first occurrence of `search`; when it does not occur verbatim,
/// finds its lines with indentation ignored and writes `replace` re-indented to
/// the file's own indentation. Returns the new content and how it matched.
pub fn replace_with_normalization(content: &str, search: &str, replace: &str) -> (res: Option<
    (String, String),
>)
    ensures
        match replace_norm_spec(content@, search@, replace@) {
            Some((t, m)) => res matches Some((x, y)) && x@ == t && y@ == m,
            None => res is None,
        },
{
    let c = chars_of(content);
    let s = chars_of(search);
    let r = chars_of(replace);
    match replace_with_normalization_chars(&c, &s, &r) {
        Some((x, y)) => Some((string_of(&x), string_of(&y))),
        None => None,
    }
}

} // verus!

verus! {

/// Largest `k' >= k` such that the first `k'` characters of `s` take at most `b` bytes,
/// growing one character at a time.
pub open spec fn fit_from(s: Seq<char>, k: int, b: nat) -> int
    decreases s.len() - k,
{
    if 0 <= k < s.len() && byte_len(s.take(k + 1)) <= b {
        fit_from(s, k + 1, b)
    } else {
        k
    }
}

/// A preview of at most `max_len` bytes: `s` itself when it fits, else its
/// longest prefix of at most `max_len - 3` bytes followed by `...`.
pub open spec fn preview(s: Seq<char>, max_len: nat) -> Seq<char> {
    if byte_len(s) <= max_len {
        s
    } else {
        let b: nat = if max_len >= 3 { (max_len - 3) as nat } else { 0 };
        s.take(fit_from(s, 0, b)) + "..."@
    }
}

/// Number of leading characters of `s` that fit in `b` bytes; also tells
/// whether all of `s` fits.
pub fn fit_prefix(s: &Vec<char>, b: usize) -> (r: usize)
    ensures
        r == fit_from(s@, 0, b as nat),
        r <= s.len(),
        (r == s.len()) == (byte_len(s@) <= b),
{
    let mut k: usize = 0;
    let mut total: usize = 0;
    assert(s@.take(0) =~= Seq::<char>::empty());
    while k < s.len() && utf8_width(s[k]) <= b - total
        invariant
            k <= s.len(),
            total == byte_len(s@.take(k as int)),
            total <= b,
            fit_from(s@, 0, b as nat) == fit_from(s@, k as int, b as nat),
        decreases s.len() - k,
    {
        proof {
            lemma_byte_len_take_step(s@, k as int);
        }
        total = total + utf8_width(s[k]);
        k = k + 1;
    }
    proof {
        assert(s@.take(s.len() as int) =~= s@);
        if k < s.len() {
            lemma_byte_len_take_step(s@, k as int);
            lemma_byte_len_take_mono(s@, k + 1, s.len() as int);
        }
    }
    k
}

/// Cuts `s` to at most `max_len` bytes, marking a cut with `...`.
pub fn truncate_preview(s: &str, max_len: usize) -> (r: String)
    ensures
        r@ == preview(s@, max_len as nat),
{
    let v = chars_of(s);
    let all = fit_prefix(&v, max_len);
    if all == v.len() {
        return string_of(&v);
    }
    let b: usize = if max_len >= 3 { max_len - 3 } else { 0 };
    let k = fit_prefix(&v, b);
    let mut out = slice_chars(&v, 0, k);
    push_str_chars(&mut out, "...");
    string_of(&out)
}

/// `pos` is a byte offset of `s` that falls between two characters.
pub open spec fn is_boundary(s: Seq<char>, pos: int) -> bool {
    exists|k: int| 0 <= k <= s.len() && byte_len(s.take(k)) == pos
}

/// Character index at byte offset `pos`.
pub open spec fn char_index_of(s: Seq<char>, pos: int) -> int {
    choose|k: int| 0 <= k <= s.len() && byte_len(s.take(k)) == pos
}

/// Number of line breaks in `s`.
pub open spec fn count_nl(s: Seq<char>) -> nat
    decreases s.len(),
{
    if s.len() == 0 {
        0
    } else {
        count_nl(s.drop_last()) + if s.last() == '\n' {
            1nat
        } else {
            0nat
        }
    }
}

/// Line (1-based) on which character index `k` of `s` stands: one more than
/// the line breaks before it (a count that fills `usize` is kept as it is).
pub open spec fn line_at(s: Seq<char>, k: int) -> int {
    let n = count_nl(s.take(k));
    if n < usize::MAX {
        (n + 1) as int
    } else {
        n as int
    }
}

/// Character index of a byte offset that falls between two characters.
fn char_index(s: &Vec<char>, pos: usize) -> (k: usize)
    requires
        is_boundary(s@, pos as int),
    ensures
        k <= s.len(),
        byte_len(s@.take(k as int)) == pos,
{
    let ghost w = choose|w: int| 0 <= w <= s@.len() && byte_len(s@.take(w)) == pos;
    let mut k: usize = 0;
    let mut total: usize = 0;
    assert(s@.take(0) =~= Seq::<char>::empty());
    while total < pos
        invariant
            0 <= w <= s.len(),
            byte_len(s@.take(w)) == pos,
            k <= w,
            total == byte_len(s@.take(k as int)),
            total <= pos,
        decreases w - k,
    {
        proof {
            if k >= w {
                lemma_byte_len_take_mono(s@, w, k as int);
            }
            lemma_byte_len_take_step(s@, k as int);
            lemma_byte_len_take_mono(s@, k + 1, w);
        }
        total = total + utf8_width(s[k]);
        k = k + 1;
    }
    k
}

/// Line (1-based) of character index `k`.
pub fn line_of_index(s: &Vec<char>, k: usize) -> (r: usize)
    requires
        k <= s.len(),
    ensures
        r == line_at(s@, k as int),
{
    let mut n: usize = 0;
    let mut i: usize = 0;
    assert(s@.take(0) =~= Seq::<char>::empty());
    while i < k
        invariant
            i <= k <= s.len(),
            n == count_nl(s@.take(i as int)),
            n <= i,
        decreases k - i,
    {
        assert(s@.take(i + 1).drop_last() =~= s@.take(i as int));
        if s[i] == '\n' {
            n = n + 1;
        }
        i = i + 1;
    }
    if n < usize::MAX {
        n + 1
    } else {
        n
    }
}

/// Line (1-based) on which byte offset `pos` stands.
pub fn byte_pos_to_line(content: &str, pos: usize) -> (r: usize)
    requires
        is_boundary(content@, pos as int),
    ensures
        r == line_at(content@, char_index_of(content@, pos as int)),
{
    let c = chars_of(content);
    let k = char_index(&c, pos);
    proof {
        lemma_byte_len_unique(c@, k as int, char_index_of(c@, pos as int));
    }
    line_of_index(&c, k)
}

pub proof fn lemma_byte_len_unique(s: Seq<char>, a: int, b: int)
    requires
        0 <= a <= s.len(),
        0 <= b <= s.len(),
        byte_len(s.take(a)) == byte_len(s.take(b)),
    ensures
        a == b,
{
    if a < b {
        lemma_byte_len_take_step(s, a);
        lemma_byte_len_take_mono(s, a + 1, b);
    } else if b < a {
        lemma_byte_len_take_step(s, b);
        lemma_byte_len_take_mono(s, b + 1, a);
    }
}

/// First and last lines (1-based) touched by `old_len` bytes at byte offset `pos`.
pub fn get_affected_lines(content: &str, pos: usize, old_len: usize) -> (r: (usize, usize))
    requires
        pos + old_len <= usize::MAX,
        is_boundary(content@, pos as int),
        is_boundary(
            content@,
            if pos + old_len < byte_len(content@) { pos + old_len } else { byte_len(content@) as int },
        ),
    ensures
        r.0 == line_at(content@, char_index_of(content@, pos as int)),
        r.1 == line_at(
            content@,
            char_index_of(
                content@,
                if pos + old_len < byte_len(content@) { pos + old_len } else { byte_len(content@) as int },
            ),
        ),
{
    // the byte offsets below fit in usize
    let _ = str_byte_len(content);
    let c = chars_of(content);
    let total = byte_offset(&c, c.len());
    assert(c@.take(c.len() as int) =~= c@);
    let end_pos = pos + old_len;
    let end = if end_pos < total { end_pos } else { total };
    let start_line = byte_pos_to_line(content, pos);
    let end_line = byte_pos_to_line(content, end);
    (start_line, end_line)
}

} // verus!

verus! {

pub open spec fn ends_nl(s: Seq<char>) -> bool {
    s.len() > 0 && s.last() == '\n'
}

/// `c` with `new` inserted as a whole line before line index `idx`; an index
/// past the last line appends it, after a line break when `c` has no final
/// one. Every other character of `c` stays as it is.
pub open spec fn insert_line_spec(c: Seq<char>, idx: int, new: Seq<char>) -> Seq<char> {
    if 0 <= idx < lines_of(c).len() {
        let o = line_start(c, idx as nat);
        c.take(o) + new + seq!['\n'] + c.skip(o)
    } else {
        c + (if c.len() > 0 && !ends_nl(c) {
            seq!['\n']
        } else {
            Seq::empty()
        }) + new + (if ends_nl(c) {
            seq!['\n']
        } else {
            Seq::empty()
        })
    }
}

/// Content after inserting `new` below the first line containing `anchor`, and
/// the 1-based line number of the inserted text.
pub open spec fn insert_after_spec(c: Seq<char>, anchor: Seq<char>, new: Seq<char>) -> Option<
    (Seq<char>, int),
> {
    match anchor_index(c, anchor) {
        Some(i) => Some((insert_line_spec(c, i + 1, new), i + 2)),
        None => None,
    }
}

/// Content after inserting `new` above the first line containing `anchor`, and
/// the 1-based line number of the inserted text.
pub open spec fn insert_before_spec(c: Seq<char>, anchor: Seq<char>, new: Seq<char>) -> Option<
    (Seq<char>, int),
> {
    match anchor_index(c, anchor) {
        Some(i) => Some((insert_line_spec(c, i, new), i + 1)),
        None => None,
    }
}

fn ends_with_nl(s: &Vec<char>) -> (r: bool)
    ensures
        r == ends_nl(s@),
{
    s.len() > 0 && s[s.len() - 1] == '\n'
}

/// `c` with `new` inserted as a whole line before line index `idx`, where `c`
/// has `n` lines.
fn insert_line(c: &Vec<char>, n: usize, idx: usize, new: &Vec<char>) -> (r: Vec<char>)
    requires
        n == lines_of(c@).len(),
    ensures
        r@ == insert_line_spec(c@, idx as int, new@),
{
    if idx < n {
        let o = line_start_index(c, idx);
        let mut out = slice_chars(c, 0, o);
        push_all(&mut out, new);
        out.push('\n');
        let rest = slice_chars(c, o, c.len());
        push_all(&mut out, &rest);
        assert(out@ =~= insert_line_spec(c@, idx as int, new@));
        out
    } else {
        let mut out = slice_chars(c, 0, c.len());
        let ends = ends_with_nl(c);
        if c.len() > 0 && !ends {
            out.push('\n');
        }
        push_all(&mut out, new);
        if ends {
            out.push('\n');
        }
        assert(out@ =~= insert_line_spec(c@, idx as int, new@));
        out
    }
}

/// Inserts `nw` as a line below the first line of `c` containing `a`; gives
/// the new content and the anchor's 0-based line index.
pub fn insert_below_anchor(c: &Vec<char>, a: &Vec<char>, nw: &Vec<char>) -> (r: Option<(Vec<char>, usize)>)
    ensures
        r matches Some((x, i)) ==> i < lines_of(c@).len(),
        match insert_after_spec(c@, a@, nw@) {
            Some((t, n)) => r matches Some((x, i)) && x@ == t && n == i + 2,
            None => r is None,
        },
{
    let ls = split_lines(c);
    match first_line_with(&ls, a) {
        Some(i) => {
            proof {
                lemma_line_with_from(views(ls@), a@, 0);
            }
            let out = insert_line(c, ls.len(), i + 1, nw);
            Some((out, i))
        },
        None => None,
    }
}

/// Inserts `nw` as a line above the first line of `c` containing `a`; gives
/// the new content and the anchor's 0-based line index.
pub fn insert_above_anchor(c: &Vec<char>, a: &Vec<char>, nw: &Vec<char>) -> (r: Option<(Vec<char>, usize)>)
    ensures
        r matches Some((x, i)) ==> i < lines_of(c@).len(),
        match insert_before_spec(c@, a@, nw@) {
            Some((t, n)) => r matches Some((x, i)) && x@ == t && n == i + 1,
            None => r is None,
        },
{
    let ls = split_lines(c);
    match first_line_with(&ls, a) {
        Some(i) => {
            proof {
                lemma_line_with_from(views(ls@), a@, 0);
            }
            let out = insert_line(c, ls.len(), i, nw);
            Some((out, i))
        },
        None => None,
    }
}

/// Inserts `new_content` as a line below the first line containing `anchor`.
pub fn insert_after_line(content: &str, anchor: &str, new_content: &str) -> (r: Option<(String, usize)>)
    requires
        content@.len() < usize::MAX,
    ensures
        match insert_after_spec(content@, anchor@, new_content@) {
            Some((t, n)) => r matches Some((x, m)) && x@ == t && m == n,
            None => r is None,
        },
{
    let c = chars_of(content);
    let a = chars_of(anchor);
    let nw = chars_of(new_content);
    proof {
        lemma_lines_len(c@);
        lemma_line_with_from(lines_of(c@), a@, 0);
    }
    match insert_below_anchor(&c, &a, &nw) {
        Some((out, i)) => Some((string_of(&out), i + 2)),
        None => None,
    }
}

/// Inserts `new_content` as a line above the first line containing `anchor`.
pub fn insert_before_line(content: &str, anchor: &str, new_content: &str) -> (r: Option<(String, usize)>)
    ensures
        match insert_before_spec(content@, anchor@, new_content@) {
            Some((t, n)) => r matches Some((x, m)) && x@ == t && m == n,
            None => r is None,
        },
{
    let c = chars_of(content);
    let a = chars_of(anchor);
    let nw = chars_of(new_content);
    proof {
        lemma_lines_len(c@);
        lemma_line_with_from(lines_of(c@), a@, 0);
    }
    let r = insert_above_anchor(&c, &a, &nw);
    match r {
        Some((out, i)) => {
            assert(i < lines_of(c@).len());
            assert(lines_of(c@).len() <= c.len());
            Some((string_of(&out), i + 1))
        },
        None => None,
    }
}

/// Content after inserting `new` at 1-based line `line`; a line one past the
/// last appends.
pub open spec fn insert_at_spec(c: Seq<char>, line: int, new: Seq<char>) -> Option<Seq<char>> {
    let ls = lines_of(c);
    if line == 0 || line > ls.len() + 1 {
        None
    } else {
        Some(insert_line_spec(c, line - 1, new))
    }
}

/// Inserts `new_content` at the 1-based line `line_num`.
pub fn insert_at_line(content: &str, line_num: usize, new_content: &str) -> (r: Option<String>)
    ensures
        match insert_at_spec(content@, line_num as int, new_content@) {
            Some(t) => r matches Some(x) && x@ == t,
            None => r is None,
        },
{
    let c = chars_of(content);
    let nw = chars_of(new_content);
    let ls = split_lines(&c);
    if line_num == 0 || line_num - 1 > ls.len() {
        return None;
    }
    let out = insert_line(&c, ls.len(), line_num - 1, &nw);
    Some(string_of(&out))
}

/// Runs of three or more `\n` shortened to two, scanning from `i` after
/// `run` newlines in a row (counted up to two).
pub open spec fn squeeze_from(s: Seq<char>, i: int, run: nat) -> Seq<char>
    decreases s.len() - i,
{
    if i < 0 || i >= s.len() {
        Seq::empty()
    } else if s[i] == '\n' {
        if run >= 2 {
            squeeze_from(s, i + 1, 2)
        } else {
            seq!['\n'] + squeeze_from(s, i + 1, run + 1)
        }
    } else {
        seq![s[i]] + squeeze_from(s, i + 1, 0)
    }
}

/// `s` with every run of three or more newlines shortened to two.
pub open spec fn collapse_blank_runs(s: Seq<char>) -> Seq<char> {
    squeeze_from(s, 0, 0)
}

fn collapse_blank_runs_chars(s: &Vec<char>) -> (r: Vec<char>)
    ensures
        r@ == collapse_blank_runs(s@),
{
    let mut out: Vec<char> = Vec::new();
    let mut i: usize = 0;
    let mut run: usize = 0;
    while i < s.len()
        invariant
            i <= s.len(),
            run <= 2,
            out@ + squeeze_from(s@, i as int, run as nat) == collapse_blank_runs(s@),
        decreases s.len() - i,
    {
        if s[i] == '\n' {
            if run >= 2 {
                run = 2;
            } else {
                out.push('\n');
                run = run + 1;
            }
        } else {
            out.push(s[i]);
            run = 0;
        }
        i = i + 1;
        assert(out@ + squeeze_from(s@, i as int, run as nat) =~= collapse_blank_runs(s@));
    }
    assert(out@ =~= collapse_blank_runs(s@));
    out
}

/// Content after deleting 1-based lines `start..=end`.
pub open spec fn delete_range_spec(c: Seq<char>, start: int, end: int) -> Option<Seq<char>> {
    let ls = lines_of(c);
    if start == 0 || end == 0 || start > end || end > ls.len() {
        None
    } else {
        let body = collapse_blank_runs(terminated(ls.take(start - 1)) + join_nl(ls.skip(end)));
        Some(
            if ends_nl(c) && body.len() > 0 && !ends_nl(body) {
                body.push('\n')
            } else {
                body
            },
        )
    }
}

/// Deletes the 1-based lines `start..=end`.
pub fn delete_line_range(content: &str, start: usize, end: usize) -> (r: Option<String>)
    ensures
        match delete_range_spec(content@, start as int, end as int) {
            Some(t) => r matches Some(x) && x@ == t,
            None => r is None,
        },
{
    let c = chars_of(content);
    let ls = split_lines(&c);
    if start == 0 || end == 0 || start > end || end > ls.len() {
        return None;
    }
    let mut body = terminate_range(&ls, 0, start - 1);
    let rest = join_range(&ls, end, ls.len());
    push_all(&mut body, &rest);
    assert(views(ls@).subrange(0, start - 1) =~= views(ls@).take(start - 1));
    assert(views(ls@).subrange(end as int, ls.len() as int) =~= views(ls@).skip(end as int));
    let mut out = collapse_blank_runs_chars(&body);
    if ends_with_nl(&c) && out.len() > 0 && !ends_with_nl(&out) {
        out.push('\n');
    }
    Some(string_of(&out))
}

/// The lines of `ls` that do not contain `search`.
pub open spec fn lines_without(ls: Seq<Seq<char>>, search: Seq<char>) -> Seq<Seq<char>> {
    ls.filter(|l: Seq<char>| !has_sub(l, search))
}

/// Content after deleting every line that contains `search`.
pub open spec fn delete_matching_spec(c: Seq<char>, search: Seq<char>) -> Seq<char> {
    let j = join_nl(lines_without(lines_of(c), search));
    if ends_nl(c) && j.len() > 0 {
        j.push('\n')
    } else {
        j
    }
}

/// Deletes every line containing `search`; returns the new content and how
/// many lines went.
pub fn delete_matching_lines(content: &str, search: &str) -> (r: (String, usize))
    ensures
        r.0@ == delete_matching_spec(content@, search@),
        r.1 == lines_of(content@).len() - lines_without(lines_of(content@), search@).len(),
{
    let c = chars_of(content);
    let s = chars_of(search);
    let ls = split_lines(&c);
    let mut kept: Vec<Vec<char>> = Vec::new();
    let mut deleted: usize = 0;
    let mut i: usize = 0;
    while i < ls.len()
        invariant
            i <= ls.len(),
            views(kept@) == lines_without(views(ls@).take(i as int), s@),
            deleted + kept.len() == i,
        decreases ls.len() - i,
    {
        assert(views(ls@).take(i + 1).drop_last() =~= views(ls@).take(i as int));
        proof {
            reveal(Seq::filter);
        }
        if contains_sub(&ls[i], &s) {
            deleted = deleted + 1;
        } else {
            let l = slice_chars(&ls[i], 0, ls[i].len());
            assert(l@ =~= ls@[i as int]@);
            kept.push(l);
            assert(views(kept@) =~= lines_without(views(ls@).take(i + 1), s@));
        }
        i = i + 1;
    }
    assert(views(ls@).take(i as int) =~= views(ls@));
    let mut out = join_lines(&kept);
    if ends_with_nl(&c) && out.len() > 0 {
        out.push('\n');
    }
    (string_of(&out), deleted)
}

} // verus!
