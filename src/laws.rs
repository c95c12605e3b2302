//! Laws that relate several functions of the library.
use vstd::prelude::*;
use crate::edits::{delete_lines_done, insert_at_done, invalid, Applied};
use crate::matcher::{collapse_blank_runs, delete_range_spec, ends_nl, insert_at_spec};
use crate::outcome::EditError;
use crate::indent::{converted, nl_from, rewrite_kept, rewrite_line, IndentStyle, LineRewrite, lemma_nl_from};
use crate::text::{
    is_ws, lead_ws, lemma_ws_end_from, spaces, trim_start, ws_end_from,
    count_from, count_occ, join_nl, terminated, lines_of, matches_at, replace_all_spec, replace_from, scan_lines,
    strip_cr,
};

verus! {

/// No character of `r` occurs in `s`.
pub open spec fn char_disjoint(s: Seq<char>, r: Seq<char>) -> bool {
    forall|a: int, b: int| 0 <= a < s.len() && 0 <= b < r.len() ==> s[a] != r[b]
}

/// A prefix of the replaced text free of replacement characters is copied
/// from `c` as it stands.
proof fn lemma_plain_prefix(c: Seq<char>, s: Seq<char>, r: Seq<char>, i: int, k: int)
    requires
        s.len() > 0,
        r.len() > 0,
        0 <= i <= c.len(),
        0 <= k <= replace_from(c, s, r, i).len(),
        forall|t: int, b: int| 0 <= t < k && 0 <= b < r.len() ==> replace_from(c, s, r, i)[t] != r[b],
    ensures
        i + k <= c.len(),
        replace_from(c, s, r, i).subrange(0, k) == c.subrange(i, i + k),
        k > 0 ==> !matches_at(c, s, i),
    decreases c.len() + 1 - i,
{
    let out = replace_from(c, s, r, i);
    if i + s.len() > c.len() {
        assert(out == c.subrange(i, c.len() as int));
        assert(out.subrange(0, k) =~= c.subrange(i, i + k));
    } else if matches_at(c, s, i) {
        if k > 0 {
            assert(out[0] == r[0]);
        }
        assert(out.subrange(0, k) =~= c.subrange(i, i + k));
    } else if k > 0 {
        let rest = replace_from(c, s, r, i + 1);
        assert(out == seq![c[i]] + rest);
        assert forall|t: int, b: int| 0 <= t < k - 1 && 0 <= b < r.len() implies rest[t] != r[b] by {
            assert(rest[t] == out[t + 1]);
        }
        lemma_plain_prefix(c, s, r, i + 1, k - 1);
        assert(out.subrange(0, k) =~= seq![c[i]] + rest.subrange(0, k - 1));
        assert(c.subrange(i, i + k) =~= seq![c[i]] + c.subrange(i + 1, i + k));
    } else {
        assert(out.subrange(0, k) =~= c.subrange(i, i + k));
    }
}

/// The replaced text holds no occurrence of `s`.
proof fn lemma_no_occurrence(c: Seq<char>, s: Seq<char>, r: Seq<char>, i: int, j: int)
    requires
        s.len() > 0,
        r.len() > 0,
        char_disjoint(s, r),
        0 <= i <= c.len(),
        0 <= j,
    ensures
        !matches_at(replace_from(c, s, r, i), s, j),
    decreases c.len() + 1 - i, j,
{
    let out = replace_from(c, s, r, i);
    if matches_at(out, s, j) {
        if j == 0 {
            assert forall|t: int, b: int| 0 <= t < s.len() && 0 <= b < r.len() implies out[t] != r[b] by {
                assert(out.subrange(0, s.len() as int)[t] == s[t]);
            }
            lemma_plain_prefix(c, s, r, i, s.len() as int);
            assert(c.subrange(i, i + s.len()) == s);
        } else if i + s.len() > c.len() {
        } else if matches_at(c, s, i) {
            let rest = replace_from(c, s, r, i + s.len());
            assert(out == r + rest);
            if j < r.len() {
                assert(out.subrange(j, j + s.len())[0] == s[0]);
                assert(out[j] == r[j]);
            } else {
                assert(rest.subrange(j - r.len(), j - r.len() + s.len()) =~= out.subrange(j, j + s.len()));
                lemma_no_occurrence(c, s, r, i + s.len(), j - r.len());
            }
        } else {
            let rest = replace_from(c, s, r, i + 1);
            assert(out == seq![c[i]] + rest);
            assert(rest.subrange(j - 1, j - 1 + s.len()) =~= out.subrange(j, j + s.len()));
            lemma_no_occurrence(c, s, r, i + 1, j - 1);
        }
    }
}

proof fn lemma_count_none(t: Seq<char>, s: Seq<char>, i: int)
    requires
        0 <= i,
        forall|j: int| 0 <= j ==> !matches_at(t, s, j),
    ensures
        count_from(t, s, i) == 0,
    decreases t.len() + 1 - i,
{
    if s.len() > 0 && i + s.len() <= t.len() {
        assert(!matches_at(t, s, i));
        lemma_count_none(t, s, i + 1);
    }
}

proof fn lemma_replaced_len(c: Seq<char>, s: Seq<char>, r: Seq<char>, i: int)
    requires
        s.len() > 0,
        0 <= i <= c.len(),
    ensures
        replace_from(c, s, r, i).len() == c.len() - i + count_from(c, s, i) * (r.len() - s.len()),
    decreases c.len() + 1 - i,
{
    let d: int = r.len() - s.len();
    if i + s.len() > c.len() {
        assert(count_from(c, s, i) == 0);
        assert(replace_from(c, s, r, i).len() == c.len() - i);
    } else if matches_at(c, s, i) {
        lemma_replaced_len(c, s, r, i + s.len());
        let n: int = count_from(c, s, i + s.len()) as int;
        assert(count_from(c, s, i) == 1 + n);
        assert(replace_from(c, s, r, i) == r + replace_from(c, s, r, i + s.len()));
        assert((1 + n) * d == n * d + d) by (nonlinear_arith);
    } else {
        lemma_replaced_len(c, s, r, i + 1);
        assert(replace_from(c, s, r, i) == seq![c[i]] + replace_from(c, s, r, i + 1));
    }
}

proof fn lemma_count_shift(x: Seq<char>, y: Seq<char>, p: Seq<char>, k: int)
    requires
        p.len() > 0,
        0 <= k,
    ensures
        count_from(x + y, p, x.len() + k) == count_from(y, p, k),
    decreases y.len() + 1 - k,
{
    let z = x + y;
    if k + p.len() <= y.len() {
        assert(z.subrange(x.len() + k, x.len() + k + p.len()) =~= y.subrange(k, k + p.len()));
        if matches_at(y, p, k) {
            lemma_count_shift(x, y, p, k + p.len());
        } else {
            lemma_count_shift(x, y, p, k + 1);
        }
    }
}

/// Counting greedily from an earlier index never finds fewer occurrences.
proof fn lemma_count_mono(t: Seq<char>, p: Seq<char>, i: int, j: int)
    requires
        0 <= i <= j <= t.len(),
    ensures
        count_from(t, p, i) >= count_from(t, p, j),
    decreases t.len() - i, t.len() - j,
{
    if i == j || p.len() == 0 || i + p.len() > t.len() {
    } else if !matches_at(t, p, i) {
        lemma_count_mono(t, p, i + 1, j);
    } else if j >= i + p.len() {
        lemma_count_mono(t, p, i + p.len(), j);
    } else if j + p.len() > t.len() {
    } else if matches_at(t, p, j) {
        lemma_count_mono(t, p, i + p.len(), j + p.len());
    } else if j + 1 == i + p.len() {
    } else {
        lemma_count_mono(t, p, i, j + 1);
    }
}

/// Each substitution leaves one occurrence of a non-empty `r` behind.
proof fn lemma_replacement_count(c: Seq<char>, s: Seq<char>, r: Seq<char>, i: int)
    requires
        s.len() > 0,
        r.len() > 0,
        0 <= i <= c.len(),
    ensures
        count_from(replace_from(c, s, r, i), r, 0) >= count_from(c, s, i),
    decreases c.len() + 1 - i,
{
    if i + s.len() > c.len() {
    } else if matches_at(c, s, i) {
        let rest = replace_from(c, s, r, i + s.len());
        lemma_replacement_count(c, s, r, i + s.len());
        assert(replace_from(c, s, r, i) == r + rest);
        assert((r + rest).subrange(0, r.len() as int) =~= r);
        lemma_count_shift(r, rest, r, 0);
    } else {
        let rest = replace_from(c, s, r, i + 1);
        lemma_replacement_count(c, s, r, i + 1);
        let out = seq![c[i]] + rest;
        assert(replace_from(c, s, r, i) == out);
        lemma_count_mono(out, r, 0, 1);
        lemma_count_shift(seq![c[i]], rest, r, 0);
    }
}

/// Replacing every occurrence of a non-empty search `s` by a non-empty `r`
/// that shares no character with it makes `n = count(c, s)` substitutions:
/// the length changes by `n` times the difference in length, no occurrence
/// of `s` is left, and `r` occurs at least `n` times.
pub proof fn lemma_replace_all_removes_search(c: Seq<char>, s: Seq<char>, r: Seq<char>)
    requires
        s.len() > 0,
        count_occ(c, s) > 0,
        r.len() > 0,
        char_disjoint(s, r),
    ensures
        replace_all_spec(c, s, r).len() == c.len() + count_occ(c, s) * (r.len() - s.len()),
        count_occ(replace_all_spec(c, s, r), s) == 0,
        count_occ(replace_all_spec(c, s, r), r) >= count_occ(c, s),
{
    lemma_replacement_count(c, s, r, 0);
    lemma_replaced_len(c, s, r, 0);
    let out = replace_from(c, s, r, 0);
    assert forall|j: int| 0 <= j implies !matches_at(out, s, j) by {
        lemma_no_occurrence(c, s, r, 0, j);
    }
    lemma_count_none(out, s, 0);
}

} // verus!

verus! {

/// `l` holds no line break.
pub open spec fn no_nl(l: Seq<char>) -> bool {
    forall|t: int| 0 <= t < l.len() ==> l[t] != '\n'
}

} // verus!

verus! {

/// The leading whitespace of `l` is spaces only, a whole number of levels of `a`.
pub open spec fn aligned_spaces(l: Seq<char>, a: nat) -> bool {
    &&& forall|t: int| 0 <= t < lead_ws(l) ==> l[t] == ' '
    &&& (lead_ws(l) as nat) % a == 0
}

proof fn lemma_ws_run(x: Seq<char>, i: int, n: int)
    requires
        0 <= i <= n <= x.len(),
        forall|t: int| i <= t < n ==> is_ws(x[t]),
        n == x.len() || !is_ws(x[n]),
    ensures
        ws_end_from(x, i) == n,
    decreases n - i,
{
    if i < n {
        lemma_ws_run(x, i + 1, n);
    }
}

/// `n` spaces before a text that does not start with whitespace are its
/// whole indentation.
proof fn lemma_lead_of_spaces(n: nat, t: Seq<char>)
    requires
        t.len() == 0 || !is_ws(t[0]),
    ensures
        lead_ws(spaces(n) + t) == n,
        trim_start(spaces(n) + t) == t,
{
    let f = spaces(n) + t;
    assert forall|k: int| 0 <= k < n implies is_ws(f[k]) by {
        assert(f[k] == ' ');
    }
    if n < f.len() {
        assert(f[n as int] == t[0]);
    }
    lemma_ws_run(f, 0, n as int);
    assert(f.skip(n as int) =~= t);
}

/// An aligned, indented line is `q * a` spaces and its text, and re-basing
/// it to width `b` gives `q * b` spaces and the same text.
proof fn lemma_rescale_shape(l: Seq<char>, a: nat, b: nat) -> (q: int)
    requires
        1 <= a <= usize::MAX,
        1 <= b <= usize::MAX,
        aligned_spaces(l, a),
        lead_ws(l) > 0,
    ensures
        q >= 1,
        q * b >= 1,
        lead_ws(l) == q * a,
        l == spaces(lead_ws(l) as nat) + trim_start(l),
        trim_start(l).len() == 0 || !is_ws(trim_start(l)[0]),
        rewrite_line(l, LineRewrite::Rescale(a as usize, b as usize)) == spaces((q * b) as nat) + trim_start(l),
{
    let lead = lead_ws(l);
    lemma_ws_end_from(l, 0);
    let q = lead / (a as int);
    vstd::arithmetic::div_mod::lemma_fundamental_div_mod(lead, a as int);
    assert(lead == q * (a as int)) by (nonlinear_arith)
        requires
            lead == (a as int) * q + lead % (a as int),
            lead % (a as int) == 0,
    ;
    assert(q >= 1) by (nonlinear_arith)
        requires
            lead == q * (a as int),
            lead > 0,
            a >= 1,
    ;
    assert(q * (b as int) >= 1) by (nonlinear_arith)
        requires
            q >= 1,
            b >= 1,
    ;
    assert(l =~= spaces(lead as nat) + trim_start(l));
    if trim_start(l).len() > 0 {
        assert(trim_start(l)[0] == l[lead]);
    }
    q
}

proof fn lemma_line_round_trip(l: Seq<char>, a: nat, b: nat)
    requires
        a >= 1,
        b >= 1,
        a <= usize::MAX,
        b <= usize::MAX,
        aligned_spaces(l, a),
    ensures
        rewrite_line(rewrite_line(l, LineRewrite::Rescale(a as usize, b as usize)), LineRewrite::Rescale(b as usize, a as usize)) == l,
        no_nl(l) ==> no_nl(rewrite_line(l, LineRewrite::Rescale(a as usize, b as usize))),
        l.len() > 0 ==> rewrite_line(l, LineRewrite::Rescale(a as usize, b as usize)).len() > 0,
        strip_cr(l) == l ==> strip_cr(rewrite_line(l, LineRewrite::Rescale(a as usize, b as usize)))
            == rewrite_line(l, LineRewrite::Rescale(a as usize, b as usize)),
{
    lemma_ws_end_from(l, 0);
    if lead_ws(l) > 0 {
        let q = lemma_rescale_shape(l, a, b);
        let t = trim_start(l);
        let n = (q * b) as nat;
        let f = spaces(n) + t;
        lemma_lead_of_spaces(n, t);
        vstd::arithmetic::div_mod::lemma_div_by_multiple(q, b as int);
        vstd::arithmetic::div_mod::lemma_mod_multiples_basic(q, b as int);
        assert(f == rewrite_line(l, LineRewrite::Rescale(a as usize, b as usize)));
        assert(lead_ws(f) as nat == n);
        assert((n as int) / (b as int) == q);
        assert((n as int) % (b as int) == 0);
        assert(rewrite_line(f, LineRewrite::Rescale(b as usize, a as usize)) =~= spaces((q * a) as nat) + t);
        assert(spaces((q * a) as nat) + t =~= l);
        if strip_cr(l) == l && f.last() == '\r' {
            if t.len() > 0 {
                assert(f.last() == t.last());
                assert(l.last() == t.last());
            } else {
                assert(f.last() == ' ');
            }
        }
        if no_nl(l) {
            assert forall|k: int| 0 <= k < f.len() implies f[k] != '\n' by {
                if k >= n {
                    assert(f[k] == l[lead_ws(l) + k - n]);
                }
            }
        }
    }
}

/// Every line of `s` (split at `\n`, a `\r` before it set aside) has its
/// leading whitespace made of spaces, in whole levels of `a`.
pub open spec fn all_aligned(s: Seq<char>, a: nat) -> bool
    decreases s.len(),
{
    let k = nl_from(s, 0);
    if k < 0 || k >= s.len() {
        aligned_spaces(s, a)
    } else {
        aligned_spaces(strip_cr(s.take(k)), a) && all_aligned(s.skip(k + 1), a)
    }
}

proof fn lemma_nl_none(x: Seq<char>, i: int)
    requires
        0 <= i <= x.len(),
        no_nl(x),
    ensures
        nl_from(x, i) == x.len(),
    decreases x.len() - i,
{
    if i < x.len() {
        lemma_nl_none(x, i + 1);
    }
}

proof fn lemma_nl_first(x: Seq<char>, y: Seq<char>, i: int)
    requires
        0 <= i <= x.len(),
        no_nl(x),
    ensures
        nl_from(x + seq!['\n'] + y, i) == x.len(),
    decreases x.len() - i,
{
    let z = x + seq!['\n'] + y;
    if i < x.len() {
        assert(z[i] == x[i]);
        lemma_nl_first(x, y, i + 1);
    } else {
        assert(z[i] == '\n');
    }
}

proof fn lemma_kept_round_trip(s: Seq<char>, a: nat, b: nat)
    requires
        1 <= a <= usize::MAX,
        1 <= b <= usize::MAX,
        all_aligned(s, a),
    ensures
        rewrite_kept(rewrite_kept(s, LineRewrite::Rescale(a as usize, b as usize)), LineRewrite::Rescale(b as usize, a as usize)) == s,
    decreases s.len(),
{
    let f = LineRewrite::Rescale(a as usize, b as usize);
    let g = LineRewrite::Rescale(b as usize, a as usize);
    lemma_nl_from(s, 0);
    let k = nl_from(s, 0);
    if k >= s.len() {
        assert(no_nl(s));
        lemma_line_round_trip(s, a, b);
        let o = rewrite_line(s, f);
        lemma_nl_none(o, 0);
    } else {
        let piece = s.take(k);
        let line = strip_cr(piece);
        let cr = piece.skip(line.len() as int);
        let rest = s.skip(k + 1);
        lemma_kept_round_trip(rest, a, b);
        assert(no_nl(piece));
        assert(no_nl(line));
        lemma_line_round_trip(line, a, b);
        let fl = rewrite_line(line, f);
        let x = fl + cr;
        assert(no_nl(x)) by {
            assert forall|t: int| 0 <= t < x.len() implies x[t] != '\n' by {
                if t >= fl.len() {
                    assert(x[t] == piece[line.len() + t - fl.len()]);
                }
            }
        }
        let y = rewrite_kept(rest, f);
        let o = x + seq!['\n'] + y;
        assert(rewrite_kept(s, f) == o);
        lemma_nl_first(x, y, 0);
        assert(o.take(x.len() as int) =~= x);
        assert(o.skip(x.len() + 1int) =~= y);
        if piece.len() > 0 && piece.last() == '\r' {
            assert(cr =~= seq!['\r']);
            assert(x.drop_last() =~= fl);
        } else {
            assert(cr =~= Seq::<char>::empty());
            assert(x =~= fl);
        }
        assert(strip_cr(x) == fl);
        assert(x.skip(fl.len() as int) =~= cr);
        assert(line + cr =~= piece);
        assert(piece + seq!['\n'] + rest =~= s);
    }
}

/// Converting text from one space width to another and back gives it back,
/// when every line is indented by spaces in whole levels of the first width.
pub proof fn lemma_convert_round_trip(text: Seq<char>, a: usize, b: usize)
    requires
        a >= 1,
        b >= 1,
        all_aligned(text, a as nat),
    ensures
        converted(converted(text, IndentStyle::Spaces(a), IndentStyle::Spaces(b)), IndentStyle::Spaces(b), IndentStyle::Spaces(a)) == text,
{
    if a != b {
        lemma_kept_round_trip(text, a as nat, b as nat);
    }
}

} // verus!

verus! {

/// `c` followed by `new` as a line of its own: after a line break when `c`
/// is not empty and has no final one, and ended by one when `c` was.
pub open spec fn appended(c: Seq<char>, new: Seq<char>) -> Seq<char> {
    c + (if c.len() > 0 && !ends_nl(c) {
        seq!['\n']
    } else {
        Seq::empty()
    }) + new + (if ends_nl(c) {
        seq!['\n']
    } else {
        Seq::empty()
    })
}

/// Line bounds: deleting lines `1..=total` empties a file, inserting at line
/// `total + 1` appends, and line 0 is rejected as a malformed edit.
pub proof fn lemma_line_boundaries(c: Seq<char>, new: Seq<char>, path: Seq<char>, res: Result<Applied, EditError>)
    ensures
        lines_of(c).len() > 0 ==> delete_range_spec(c, 1, lines_of(c).len() as int) == Some(Seq::<char>::empty()),
        insert_at_spec(c, lines_of(c).len() + 1int, new) == Some(appended(c, new)),
        insert_at_done(res, path, c, 0, new) ==> invalid(res, "Line number must be >= 1"@),
        delete_lines_done(res, path, c, 0, 0) ==> invalid(res, "Line numbers must be >= 1"@),
{
    let ls = lines_of(c);
    if ls.len() > 0 {
        assert(ls.take(0) =~= Seq::<Seq<char>>::empty());
        assert(ls.skip(ls.len() as int) =~= Seq::<Seq<char>>::empty());
        assert(terminated(Seq::<Seq<char>>::empty()) + join_nl(Seq::<Seq<char>>::empty()) =~= Seq::<char>::empty());
        assert(collapse_blank_runs(Seq::<char>::empty()) =~= Seq::<char>::empty());
    }
}

} // verus!

verus! {

proof fn lemma_scan_concat(x: Seq<char>, y: Seq<char>)
    requires
        scan_lines(x).1.len() == 0,
    ensures
        scan_lines(x + y) == (scan_lines(x).0 + scan_lines(y).0, scan_lines(y).1),
    decreases y.len(),
{
    if y.len() == 0 {
        assert(x + y =~= x);
        assert(scan_lines(x).0 + scan_lines(y).0 =~= scan_lines(x).0);
        assert(scan_lines(x).1 =~= scan_lines(y).1);
    } else {
        lemma_scan_concat(x, y.drop_last());
        assert((x + y).drop_last() =~= x + y.drop_last());
        assert((x + y).last() == y.last());
        let (a, _) = scan_lines(y.drop_last());
        let l = scan_lines(x).0;
        assert((l + a).push(strip_cr(scan_lines(y.drop_last()).1)) =~= l + a.push(strip_cr(scan_lines(y.drop_last()).1)));
    }
}

/// Appending at the line after the last keeps every line of `c` and adds the
/// lines of `new` after them, when `new` is not empty, does not end with a
/// line break, and no carriage return would be read as part of a line ending
/// that the append creates.
pub proof fn lemma_append_lines(c: Seq<char>, new: Seq<char>)
    requires
        new.len() > 0,
        !ends_nl(new),
        !(c.len() > 0 && c.last() == '\r'),
        ends_nl(c) ==> new.last() != '\r',
    ensures
        insert_at_spec(c, lines_of(c).len() + 1int, new) == Some(appended(c, new)),
        appended(c, new).take(c.len() as int) == c,
        lines_of(appended(c, new)) == lines_of(c) + lines_of(new),
{
    let a = appended(c, new);
    assert(a.take(c.len() as int) =~= c);
    let sep: Seq<char> = if c.len() > 0 && !ends_nl(c) { seq!['\n'] } else { Seq::empty() };
    let c1 = c + sep;
    // `c` followed by its separator ends every line it holds
    if c.len() == 0 {
        assert(c1 =~= c);
    } else if ends_nl(c) {
        assert(c1 =~= c);
        assert(c.drop_last().push('\n') =~= c);
    } else {
        assert(c1.drop_last() =~= c);
        assert(c.drop_last().push(c.last()) =~= c);
    }
    assert(scan_lines(c1).1.len() == 0);
    assert(scan_lines(c1).0 == lines_of(c));
    assert(new.drop_last().push(new.last()) =~= new);
    let (nl, ncur) = scan_lines(new);
    assert(ncur.len() > 0);
    if ends_nl(c) {
        lemma_scan_concat(c1, new);
        let x = c1 + new;
        assert(a =~= x.push('\n'));
        assert(a.drop_last() =~= x);
        assert(strip_cr(ncur) == ncur);
        assert((lines_of(c) + nl).push(ncur) =~= lines_of(c) + nl.push(ncur));
    } else {
        lemma_scan_concat(c1, new);
        assert(a =~= c1 + new);
        assert((lines_of(c) + nl).push(ncur) =~= lines_of(c) + nl.push(ncur));
    }
}

} // verus!
