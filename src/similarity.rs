//! Fuzzy ranking of windows of a file's lines against a search string, by
//! normalized edit distance. A similarity is kept exactly, as the fraction
//! `(longest - distance) / longest`.
use vstd::prelude::*;
use crate::text::{chars_of, join_nl, join_range, lines_of, lines_of_str, string_of, views};

verus! {

pub open spec fn min_nat(a: nat, b: nat) -> nat {
    if a <= b {
        a
    } else {
        b
    }
}

/// Fewest single-character insertions, deletions and substitutions that turn
/// `a` into `b`.
pub open spec fn edit_distance(a: Seq<char>, b: Seq<char>) -> nat
    decreases a.len() + b.len(),
{
    if a.len() == 0 {
        b.len()
    } else if b.len() == 0 {
        a.len()
    } else {
        let sub: nat = edit_distance(a.drop_last(), b.drop_last()) + if a.last() == b.last() {
            0nat
        } else {
            1nat
        };
        min_nat(
            min_nat(edit_distance(a.drop_last(), b) + 1, edit_distance(a, b.drop_last()) + 1),
            sub,
        )
    }
}

/// Relies on `strsim::levenshtein`: the Levenshtein distance, over characters,
/// between the two strings.
#[verifier::external_body]
fn levenshtein(a: &str, b: &str) -> (r: usize)
    ensures
        r == edit_distance(a@, b@),
{
    strsim::levenshtein(a, b)
}

/// A window of a file's lines ranked against a search string.
#[derive(Debug, Clone)]
pub struct ClosestMatch {
    /// 1-based line where the window starts.
    pub line: usize,
    /// Edit distance between the search string and the window.
    pub distance: usize,
    /// Length in characters of the longer of the two; the similarity is
    /// `(longest - distance) / longest`.
    pub longest: usize,
    /// The window's lines joined with `\n`.
    pub content: String,
    /// Up to two lines before the window.
    pub context_before: Vec<String>,
    /// Up to two lines after the window.
    pub context_after: Vec<String>,
}

pub open spec fn string_views(v: Seq<String>) -> Seq<Seq<char>> {
    v.map_values(|s: String| s@)
}

/// `m1`'s similarity `1 - d1 / l1` is above `m2`'s.
pub open spec fn more_similar(d1: nat, l1: nat, d2: nat, l2: nat) -> bool {
    d1 * l2 < d2 * l1
}

/// The similarity `1 - d / l` is at least `t / 1000`.
pub open spec fn meets_permille(d: nat, l: nat, t: nat) -> bool {
    1000 * l >= t * l + 1000 * d
}

/// End (exclusive) of the window of `k` lines at `start`, cut at the last line.
pub open spec fn window_end(n: nat, k: nat, start: nat) -> nat {
    min_nat(start + k, n)
}

/// Text of the window of `k` lines at `start`.
pub open spec fn window_text(cl: Seq<Seq<char>>, k: nat, start: nat) -> Seq<char> {
    join_nl(cl.subrange(start as int, window_end(cl.len(), k, start) as int))
}

pub open spec fn max_nat(a: nat, b: nat) -> nat {
    if a >= b {
        a
    } else {
        b
    }
}

/// Distance between `s` and the window at `start`.
pub open spec fn window_distance(cl: Seq<Seq<char>>, s: Seq<char>, start: nat) -> nat {
    edit_distance(s, window_text(cl, lines_of(s).len(), start))
}

/// Longer length of `s` and the window at `start`.
pub open spec fn window_longest(cl: Seq<Seq<char>>, s: Seq<char>, start: nat) -> nat {
    max_nat(s.len(), window_text(cl, lines_of(s).len(), start).len())
}

/// The window at `start` meets the threshold of `t` per mille.
pub open spec fn window_passes(cl: Seq<Seq<char>>, s: Seq<char>, t: nat, start: nat) -> bool {
    meets_permille(window_distance(cl, s, start), window_longest(cl, s, start), t)
}

/// The window at `a` is more similar to `s` than the window at `b`.
pub open spec fn ranks_above(cl: Seq<Seq<char>>, s: Seq<char>, a: nat, b: nat) -> bool {
    more_similar(
        window_distance(cl, s, a),
        window_longest(cl, s, a),
        window_distance(cl, s, b),
        window_longest(cl, s, b),
    )
}

/// Starts at or after `i` whose window meets the threshold, in file order.
pub open spec fn passing_from(cl: Seq<Seq<char>>, s: Seq<char>, t: nat, i: nat) -> Seq<nat>
    decreases cl.len() - i,
{
    if i >= cl.len() {
        Seq::empty()
    } else if window_passes(cl, s, t, i) {
        seq![i] + passing_from(cl, s, t, i + 1)
    } else {
        passing_from(cl, s, t, i + 1)
    }
}

/// `x` placed in the descending ranking `r` after every start that ranks at
/// least as high.
pub open spec fn insert_ranked(cl: Seq<Seq<char>>, s: Seq<char>, r: Seq<nat>, x: nat) -> Seq<nat>
    decreases r.len(),
{
    if r.len() == 0 {
        seq![x]
    } else if ranks_above(cl, s, x, r[0]) {
        seq![x] + r
    } else {
        seq![r[0]] + insert_ranked(cl, s, r.drop_first(), x)
    }
}

/// Stable ranking of `xs` by similarity, most similar first.
pub open spec fn rank(cl: Seq<Seq<char>>, s: Seq<char>, xs: Seq<nat>) -> Seq<nat>
    decreases xs.len(),
{
    if xs.len() == 0 {
        Seq::empty()
    } else {
        insert_ranked(cl, s, rank(cl, s, xs.drop_last()), xs.last())
    }
}

/// `m` describes the window of `content`'s lines at `start` for `search`.
pub open spec fn describes(m: ClosestMatch, cl: Seq<Seq<char>>, s: Seq<char>, start: nat) -> bool {
    let k = lines_of(s).len();
    let end = window_end(cl.len(), k, start);
    let b0: nat = if start >= 2 { (start - 2) as nat } else { 0 };
    &&& m.line == start + 1
    &&& m.distance == window_distance(cl, s, start)
    &&& m.longest == window_longest(cl, s, start)
    &&& m.content@ == window_text(cl, k, start)
    &&& string_views(m.context_before@) == cl.subrange(b0 as int, start as int)
    &&& string_views(m.context_after@) == cl.subrange(
        end as int,
        min_nat(end + 2, cl.len()) as int,
    )
}

/// `r` lists the windows of `content` for `search` meeting `t` per mille,
/// most similar first, at most `max` of them.
pub open spec fn ranked_as(r: Seq<ClosestMatch>, content: Seq<char>, search: Seq<char>, t: nat, max: nat) -> bool {
    &&& r.len() == min_nat(max, closest_starts(content, search, t).len())
    &&& forall|j: int| 0 <= j < r.len() ==> describes(#[trigger] r[j], lines_of(content), search,
            closest_starts(content, search, t)[j])
}

/// The ranked windows of `content` for `search`, as starts.
pub open spec fn closest_starts(content: Seq<char>, search: Seq<char>, t: nat) -> Seq<nat> {
    let cl = lines_of(content);
    if lines_of(search).len() == 0 || cl.len() == 0 {
        Seq::empty()
    } else {
        rank(cl, search, passing_from(cl, search, t, 0))
    }
}

} // verus!

verus! {

pub proof fn lemma_insert_ranked(cl: Seq<Seq<char>>, s: Seq<char>, r: Seq<nat>, x: nat, p: int)
    requires
        0 <= p <= r.len(),
        forall|j: int| 0 <= j < p ==> !ranks_above(cl, s, x, #[trigger] r[j]),
        p == r.len() || ranks_above(cl, s, x, r[p]),
    ensures
        insert_ranked(cl, s, r, x) == r.insert(p, x),
    decreases r.len(),
{
    if r.len() == 0 {
        assert(r.insert(p, x) =~= seq![x]);
    } else if p == 0 {
        assert(r.insert(p, x) =~= seq![x] + r);
    } else {
        assert(!ranks_above(cl, s, x, r[0]));
        let rest = r.drop_first();
        assert forall|j: int| 0 <= j < p - 1 implies !ranks_above(cl, s, x, #[trigger] rest[j]) by {
            assert(rest[j] == r[j + 1]);
        }
        lemma_insert_ranked(cl, s, rest, x, p - 1);
        assert(r.insert(p, x) =~= seq![r[0]] + rest.insert(p - 1, x));
    }
}

/// Copies `cl[from..to]` as strings.
fn strings_of_range(cl: &Vec<Vec<char>>, from: usize, to: usize) -> (r: Vec<String>)
    requires
        from <= to <= cl.len(),
    ensures
        string_views(r@) == views(cl@).subrange(from as int, to as int),
{
    let mut out: Vec<String> = Vec::new();
    let mut i: usize = from;
    while i < to
        invariant
            from <= i <= to <= cl.len(),
            out.len() == i - from,
            string_views(out@) == views(cl@).subrange(from as int, i as int),
        decreases to - i,
    {
        let s = string_of(&cl[i]);
        let ghost prev = out@;
        out.push(s);
        proof {
            assert forall|j: int| 0 <= j < out.len() implies #[trigger] string_views(out@)[j]
                == views(cl@).subrange(from as int, i + 1)[j] by {
                if j < prev.len() {
                    assert(out@[j] == prev[j]);
                    assert(string_views(prev)[j] == views(cl@).subrange(from as int, i as int)[j]);
                }
            }
        }
        i = i + 1;
        assert(string_views(out@) =~= views(cl@).subrange(from as int, i as int));
    }
    out
}

/// The window of `k` lines of `cl` at `start`, ranked against `search`.
fn window_match(cl: &Vec<Vec<char>>, search: &str, search_len: usize, k: usize, start: usize) -> (m:
    ClosestMatch)
    requires
        start < cl.len(),
        k == lines_of(search@).len(),
        search_len == search@.len(),
    ensures
        describes(m, views(cl@), search@, start as nat),
{
    let n = cl.len();
    let end: usize = if k < n - start { start + k } else { n };
    let w = join_range(cl, start, end);
    let ws = string_of(&w);
    let distance = levenshtein(search, ws.as_str());
    let longest: usize = if search_len >= w.len() { search_len } else { w.len() };
    let b0: usize = if start >= 2 { start - 2 } else { 0 };
    let after_end: usize = if 2 < n - end { end + 2 } else { n };
    let context_before = strings_of_range(cl, b0, start);
    let context_after = strings_of_range(cl, end, after_end);
    ClosestMatch { line: start + 1, distance, longest, content: ws, context_before, context_after }
}

/// Whether the similarity `1 - d1 / l1` is above `1 - d2 / l2`.
pub fn is_more_similar(d1: usize, l1: usize, d2: usize, l2: usize) -> (r: bool)
    ensures
        r == more_similar(d1 as nat, l1 as nat, d2 as nat, l2 as nat),
{
    assert((d1 as int) * (l2 as int) <= u128::MAX) by (nonlinear_arith)
        requires
            d1 <= usize::MAX,
            l2 <= usize::MAX,
            usize::MAX <= u64::MAX,
    ;
    assert((d2 as int) * (l1 as int) <= u128::MAX) by (nonlinear_arith)
        requires
            d2 <= usize::MAX,
            l1 <= usize::MAX,
            usize::MAX <= u64::MAX,
    ;
    (d1 as u128) * (l2 as u128) < (d2 as u128) * (l1 as u128)
}

/// Whether the similarity `1 - d / l` is at least `t / 1000`.
pub fn meets_threshold(d: usize, l: usize, t: usize) -> (r: bool)
    ensures
        r == meets_permille(d as nat, l as nat, t as nat),
{
    if d > l {
        return false;
    }
    assert((t as int) * (l as int) <= u128::MAX) by (nonlinear_arith)
        requires
            t <= usize::MAX,
            l <= usize::MAX,
            usize::MAX <= u64::MAX,
    ;
    1000u128 * ((l - d) as u128) >= (t as u128) * (l as u128)
}

/// Windows of `content`'s lines, as many lines long as `search`, whose
/// similarity to `search` is at least `threshold_permille / 1000`: most
/// similar first (file order among equals), at most `max_results` of them.
pub fn find_closest_matches(content: &str, search: &str, threshold_permille: usize, max_results: usize) -> (r: Vec<ClosestMatch>)
    ensures
        ranked_as(r@, content@, search@, threshold_permille as nat, max_results as nat),
        r.len() == min_nat(max_results as nat, closest_starts(content@, search@, threshold_permille as nat).len()),
        forall|j: int| 0 <= j < r.len() ==> describes(#[trigger] r@[j], lines_of(content@), search@,
            closest_starts(content@, search@, threshold_permille as nat)[j]),
{
    let search_lines = lines_of_str(search);
    let cl = lines_of_str(content);
    let ghost cls = lines_of(content@);
    if search_lines.len() == 0 || cl.len() == 0 {
        return Vec::new();
    }
    let k = search_lines.len();
    let search_len = chars_of(search).len();
    let mut ranked: Vec<ClosestMatch> = Vec::new();
    let ghost mut rs: Seq<nat> = Seq::empty();
    let ghost mut passed: Seq<nat> = Seq::empty();
    let mut i: usize = 0;
    while i < cl.len()
        invariant
            views(cl@) == cls,
            cls == lines_of(content@),
            k == lines_of(search@).len(),
            search_len == search@.len(),
            i <= cl.len(),
            passed + passing_from(cls, search@, threshold_permille as nat, i as nat) == passing_from(
                cls,
                search@,
                threshold_permille as nat,
                0,
            ),
            rs == rank(cls, search@, passed),
            ranked.len() == rs.len(),
            forall|j: int| 0 <= j < ranked.len() ==> describes(#[trigger] ranked@[j], cls, search@, rs[j]),
        decreases cl.len() - i,
    {
        let m = window_match(&cl, search, search_len, k, i);
        if meets_threshold(m.distance, m.longest, threshold_permille) {
            let mut p: usize = 0;
            while p < ranked.len() && !is_more_similar(
                m.distance,
                m.longest,
                ranked[p].distance,
                ranked[p].longest,
            )
                invariant
                    p <= ranked.len(),
                    ranked.len() == rs.len(),
                    forall|j: int| 0 <= j < ranked.len() ==> describes(#[trigger] ranked@[j], cls, search@, rs[j]),
                    describes(m, cls, search@, i as nat),
                    forall|j: int| 0 <= j < p ==> !ranks_above(cls, search@, i as nat, #[trigger] rs[j]),
                decreases ranked.len() - p,
            {
                assert(describes(ranked@[p as int], cls, search@, rs[p as int]));
                p = p + 1;
            }
            proof {
                if p < ranked.len() {
                    assert(describes(ranked@[p as int], cls, search@, rs[p as int]));
                }
                lemma_insert_ranked(cls, search@, rs, i as nat, p as int);
                let ghost np = passed.push(i as nat);
                assert(np.drop_last() =~= passed);
                assert(passed + passing_from(cls, search@, threshold_permille as nat, i as nat)
                    =~= np + passing_from(cls, search@, threshold_permille as nat, (i + 1) as nat));
                passed = np;
            }
            let ghost old_ranked = ranked@;
            ranked.insert(p, m);
            proof {
                let ghost ors = rs;
                rs = rs.insert(p as int, i as nat);
                assert forall|j: int| 0 <= j < ranked.len() implies describes(#[trigger] ranked@[j], cls, search@, rs[j]) by {
                    if j < p {
                        assert(ranked@[j] == old_ranked[j]);
                        assert(rs[j] == ors[j]);
                    } else if j > p {
                        assert(ranked@[j] == old_ranked[j - 1]);
                        assert(rs[j] == ors[j - 1]);
                    }
                }
            }
        } else {
            assert(passed + passing_from(cls, search@, threshold_permille as nat, i as nat)
                =~= passed + passing_from(cls, search@, threshold_permille as nat, (i + 1) as nat));
        }
        i = i + 1;
    }
    assert(passed =~= passing_from(cls, search@, threshold_permille as nat, 0));
    let ghost all = ranked@;
    ranked.truncate(max_results);
    assert forall|j: int| 0 <= j < ranked.len() implies describes(#[trigger] ranked@[j], lines_of(content@), search@,
            closest_starts(content@, search@, threshold_permille as nat)[j]) by {
        assert(ranked@[j] == all[j]);
    }
    ranked
}

} // verus!
