//! Indentation styles: detection from a file's content, per-language
//! defaults, and conversion of leading whitespace between styles.
//! Indentation widths count leading whitespace characters.
use vstd::prelude::*;
use crate::text::{
    chars_of, is_ws, join_lines, lines_of_str, slice_chars, strip_cr, join_nl, lead_ws, leading_ws_count, lines_of, push_all,
    push_repeat, same_chars, spaces, split_lines, string_of, tabs, trim, trim_chars, trim_end,
    trim_end_chars, trim_start, trim_start_chars, views,
};

verus! {

/// The indentation style of a file.
#[derive(Debug, Clone, Copy, PartialEq, Eq, Structural)]
pub enum IndentStyle {
    /// Spaces, this many per level.
    Spaces(usize),
    Tabs,
    /// Tabs and spaces both in common use.
    Mixed,
    /// Nothing to go by.
    Unknown,
}

impl Default for IndentStyle {
    fn default() -> (r: Self)
        ensures
            r == IndentStyle::Spaces(4),
    {
        IndentStyle::Spaces(4)
    }
}

/// Unicode lower case of a string, as `str::to_lowercase` computes it.
pub uninterp spec fn lower_of(s: Seq<char>) -> Seq<char>;

/// Relies on `str::to_lowercase`: the result depends on the characters alone.
#[verifier::external_body]
fn lowercase(s: &str) -> (r: String)
    ensures
        r@ == lower_of(s@),
{
    s.to_lowercase()
}

pub open spec fn is_one_of(s: Seq<char>, words: Seq<Seq<char>>) -> bool {
    exists|i: int| 0 <= i < words.len() && words[i] == s
}

pub open spec fn tab_extensions() -> Seq<Seq<char>> {
    seq!["go"@, "makefile"@, "mk"@]
}

pub open spec fn two_space_extensions() -> Seq<Seq<char>> {
    seq![
        "js"@, "jsx"@, "ts"@, "tsx"@, "mjs"@, "cjs"@, "html"@, "htm"@, "css"@, "scss"@, "sass"@,
        "less"@, "json"@, "yaml"@, "yml"@, "rb"@, "vue"@, "svelte"@,
    ]
}

/// The customary indentation for a lower-case file extension: tabs for Go and
/// make files, two spaces for the web, Ruby and data formats, four otherwise.
pub open spec fn extension_style(ext: Seq<char>) -> IndentStyle {
    if is_one_of(ext, tab_extensions()) {
        IndentStyle::Tabs
    } else if is_one_of(ext, two_space_extensions()) {
        IndentStyle::Spaces(2)
    } else {
        IndentStyle::Spaces(4)
    }
}

fn is_word(v: &Vec<char>, w: &str) -> (r: bool)
    ensures
        r == (v@ == w@),
{
    let wc = chars_of(w);
    same_chars(v, &wc)
}

fn is_listed(v: &Vec<char>, words: &Vec<&str>) -> (r: bool)
    ensures
        r == exists|i: int| 0 <= i < words.len() && words@[i]@ == v@,
{
    let mut i: usize = 0;
    while i < words.len()
        invariant
            i <= words.len(),
            forall|j: int| 0 <= j < i ==> words@[j]@ != v@,
        decreases words.len() - i,
    {
        if is_word(v, words[i]) {
            return true;
        }
        i = i + 1;
    }
    false
}

/// The customary indentation for an extension already in lower case.
pub fn style_for_extension(ext: &str) -> (r: IndentStyle)
    ensures
        r == extension_style(ext@),
{
    let v = chars_of(ext);
    let tab_words: Vec<&str> = vec!["go", "makefile", "mk"];
    let two_words: Vec<&str> = vec![
        "js", "jsx", "ts", "tsx", "mjs", "cjs", "html", "htm", "css", "scss", "sass", "less",
        "json", "yaml", "yml", "rb", "vue", "svelte",
    ];
    let is_tab = is_listed(&v, &tab_words);
    proof {
        assert(tab_words@.map_values(|w: &str| w@) =~= tab_extensions());
        if is_tab {
            let i = choose|i: int| 0 <= i < tab_words.len() && tab_words@[i]@ == v@;
            assert(tab_extensions()[i] == v@);
        } else {
            assert forall|i: int| 0 <= i < tab_extensions().len() implies tab_extensions()[i] != ext@ by {
                assert(tab_extensions()[i] == tab_words@[i]@);
            }
        }
    }
    if is_tab {
        return IndentStyle::Tabs;
    }
    let is_two = is_listed(&v, &two_words);
    proof {
        assert(two_words@.map_values(|w: &str| w@) =~= two_space_extensions());
        if is_two {
            let i = choose|i: int| 0 <= i < two_words.len() && two_words@[i]@ == v@;
            assert(two_space_extensions()[i] == v@);
        } else {
            assert forall|i: int| 0 <= i < two_space_extensions().len() implies two_space_extensions()[i] != ext@ by {
                assert(two_space_extensions()[i] == two_words@[i]@);
            }
        }
    }
    if is_two {
        IndentStyle::Spaces(2)
    } else {
        IndentStyle::Spaces(4)
    }
}

/// The customary indentation for a file extension, in any case.
pub fn language_default_indent(extension: &str) -> (r: IndentStyle)
    ensures
        r == extension_style(lower_of(extension@)),
{
    let lower = lowercase(extension);
    style_for_extension(lower.as_str())
}

} // verus!

verus! {

/// Occurrences of `c` in `s`.
pub open spec fn count_char(s: Seq<char>, c: char) -> nat
    decreases s.len(),
{
    if s.len() == 0 {
        0
    } else {
        count_char(s.drop_last(), c) + if s.last() == c {
            1nat
        } else {
            0nat
        }
    }
}

/// The leading whitespace of a line.
pub open spec fn indent_of(l: Seq<char>) -> Seq<char> {
    l.take(lead_ws(l))
}

/// How one line's leading whitespace is rewritten.
#[derive(Clone, Copy)]
pub enum LineRewrite {
    /// Drop trailing whitespace.
    TrimEnd,
    /// One tab per tab and per four spaces of indentation.
    TabCanon,
    /// This many spaces per tab, one per space.
    SpaceCanon(usize),
    /// Levels of the first width become levels of the second; a remainder is kept.
    Rescale(usize, usize),
    /// Levels of this width become tabs; a remainder stays as spaces.
    SpacesToTabs(usize),
}

pub open spec fn rewrite_ok(m: LineRewrite) -> bool {
    match m {
        LineRewrite::Rescale(sw, _) => sw > 0,
        LineRewrite::SpacesToTabs(sw) => sw > 0,
        _ => true,
    }
}

pub open spec fn rewrite_line(l: Seq<char>, m: LineRewrite) -> Seq<char> {
    let ind = indent_of(l);
    let lead = lead_ws(l) as nat;
    match m {
        LineRewrite::TrimEnd => trim_end(l),
        LineRewrite::TabCanon => tabs(count_char(ind, '\t') + count_char(ind, ' ') / 4)
            + trim_start(l),
        LineRewrite::SpaceCanon(w) => spaces((count_char(ind, '\t') * (w as nat) + count_char(ind, ' ')) as nat)
            + trim_start(l),
        LineRewrite::Rescale(sw, tw) => if lead == 0 {
            l
        } else {
            spaces(((lead / (sw as nat)) * (tw as nat) + lead % (sw as nat)) as nat) + trim_start(l)
        },
        LineRewrite::SpacesToTabs(sw) => if lead == 0 {
            l
        } else {
            tabs(lead / (sw as nat)) + spaces(lead % (sw as nat)) + trim_start(l)
        },
    }
}

pub open spec fn rewrite_all(ls: Seq<Seq<char>>, m: LineRewrite) -> Seq<Seq<char>> {
    ls.map_values(|l: Seq<char>| rewrite_line(l, m))
}

/// Every line of `text` rewritten, joined with `\n`.
pub open spec fn rewrite_text(text: Seq<char>, m: LineRewrite) -> Seq<char> {
    join_nl(rewrite_all(lines_of(text), m))
}

/// Occurrences of `c` among the first `k` characters of `s`.
fn count_in_prefix(s: &Vec<char>, k: usize, c: char) -> (r: usize)
    requires
        k <= s.len(),
    ensures
        r == count_char(s@.take(k as int), c),
{
    let mut n: usize = 0;
    let mut i: usize = 0;
    assert(s@.take(0) =~= Seq::<char>::empty());
    while i < k
        invariant
            i <= k <= s.len(),
            n == count_char(s@.take(i as int), c),
            n <= i,
        decreases k - i,
    {
        assert(s@.take(i + 1).drop_last() =~= s@.take(i as int));
        if s[i] == c {
            n = n + 1;
        }
        i = i + 1;
    }
    n
}

/// Appends `times` runs of `w` spaces.
fn push_space_runs(out: &mut Vec<char>, w: usize, times: usize)
    ensures
        final(out)@ == old(out)@ + spaces((times * w) as nat),
{
    let ghost start = out@;
    let mut i: usize = 0;
    assert(start + spaces(0) =~= start);
    while i < times
        invariant
            i <= times,
            out@ == start + spaces((i * w) as nat),
        decreases times - i,
    {
        push_repeat(out, ' ', w);
        assert((i + 1) * w == i * w + w) by (nonlinear_arith);
        i = i + 1;
        assert(out@ =~= start + spaces((i * w) as nat));
    }
}

fn rewrite_line_chars(l: &Vec<char>, m: LineRewrite) -> (r: Vec<char>)
    requires
        rewrite_ok(m),
    ensures
        r@ == rewrite_line(l@, m),
{
    if let LineRewrite::TrimEnd = m {
        return trim_end_chars(l);
    }
    let lead = leading_ws_count(l);
    let rest = trim_start_chars(l);
    let mut out: Vec<char> = Vec::new();
    match m {
        LineRewrite::TabCanon => {
            let t = count_in_prefix(l, lead, '\t');
            let s = count_in_prefix(l, lead, ' ');
            push_repeat(&mut out, '\t', t);
            push_repeat(&mut out, '\t', s / 4);
            assert(out@ =~= tabs((t + s / 4) as nat));
        },
        LineRewrite::SpaceCanon(w) => {
            let t = count_in_prefix(l, lead, '\t');
            let s = count_in_prefix(l, lead, ' ');
            push_space_runs(&mut out, w, t);
            push_repeat(&mut out, ' ', s);
            assert(out@ =~= spaces((t * w + s) as nat));
        },
        LineRewrite::Rescale(sw, tw) => {
            if lead == 0 {
                return slice_all(l);
            }
            push_space_runs(&mut out, tw, lead / sw);
            push_repeat(&mut out, ' ', lead % sw);
            assert(out@ =~= spaces(((lead / sw) * tw + lead % sw) as nat));
        },
        LineRewrite::SpacesToTabs(sw) => {
            if lead == 0 {
                return slice_all(l);
            }
            push_repeat(&mut out, '\t', lead / sw);
            push_repeat(&mut out, ' ', lead % sw);
        },
        LineRewrite::TrimEnd => {},
    }
    push_all(&mut out, &rest);
    assert(out@ =~= rewrite_line(l@, m));
    out
}

fn slice_all(l: &Vec<char>) -> (r: Vec<char>)
    ensures
        r@ == l@,
{
    let mut r: Vec<char> = Vec::new();
    push_all(&mut r, l);
    assert(r@ =~= l@);
    r
}

/// Rewrites every line of `text` and joins them with `\n`.
pub fn rewrite_lines(text: &Vec<char>, m: LineRewrite) -> (r: Vec<char>)
    requires
        rewrite_ok(m),
    ensures
        r@ == rewrite_text(text@, m),
{
    let ls = split_lines(text);
    let mut out: Vec<Vec<char>> = Vec::new();
    let mut i: usize = 0;
    while i < ls.len()
        invariant
            rewrite_ok(m),
            i <= ls.len(),
            out.len() == i,
            views(out@) == rewrite_all(views(ls@), m).take(i as int),
        decreases ls.len() - i,
    {
        let t = rewrite_line_chars(&ls[i], m);
        let ghost prev = out@;
        out.push(t);
        proof {
            assert forall|j: int| 0 <= j < i + 1 implies #[trigger] views(out@)[j] == rewrite_all(
                views(ls@),
                m,
            )[j] by {
                if j < i {
                    assert(out@[j] == prev[j]);
                    assert(views(prev)[j] == rewrite_all(views(ls@), m).take(i as int)[j]);
                }
            }
        }
        i = i + 1;
        assert(views(out@) =~= rewrite_all(views(ls@), m).take(i as int));
    }
    assert(rewrite_all(views(ls@), m).take(i as int) =~= rewrite_all(views(ls@), m));
    join_lines(&out)
}

} // verus!

verus! {

/// A `Spaces` style has a positive width.
pub open spec fn valid_width(s: IndentStyle) -> bool {
    s matches IndentStyle::Spaces(w) ==> w >= 1
}

/// Indentation put in a canonical form for comparison.
pub open spec fn normalized(c: Seq<char>, style: IndentStyle) -> Seq<char> {
    match style {
        IndentStyle::Tabs => rewrite_text(c, LineRewrite::TabCanon),
        IndentStyle::Spaces(w) => rewrite_text(c, LineRewrite::SpaceCanon(w)),
        _ => rewrite_text(c, LineRewrite::TrimEnd),
    }
}

/// Rewrites indentation into a canonical form of `style`: for tabs, one tab
/// per tab and per four spaces; for spaces, `width` per tab and one per space;
/// otherwise only trailing whitespace goes.
pub fn normalize_for_comparison(content: &str, style: IndentStyle) -> (r: String)
    ensures
        r@ == normalized(content@, style),
{
    let c = chars_of(content);
    let m = match style {
        IndentStyle::Tabs => LineRewrite::TabCanon,
        IndentStyle::Spaces(w) => LineRewrite::SpaceCanon(w),
        _ => LineRewrite::TrimEnd,
    };
    let v = rewrite_lines(&c, m);
    string_of(&v)
}

/// `text` re-expressed from one indentation style in another. Only leading
/// whitespace changes, and every line keeps its own line ending; between
/// space widths a level is re-scaled and a remainder is kept as it is.
pub open spec fn converted(text: Seq<char>, src: IndentStyle, tgt: IndentStyle) -> Seq<char> {
    if src == tgt {
        text
    } else {
        match (src, tgt) {
            (IndentStyle::Spaces(sw), IndentStyle::Spaces(tw)) => rewrite_kept(
                text,
                LineRewrite::Rescale(sw, tw),
            ),
            (IndentStyle::Spaces(sw), IndentStyle::Tabs) => rewrite_kept(
                text,
                LineRewrite::SpacesToTabs(sw),
            ),
            (IndentStyle::Tabs, IndentStyle::Spaces(tw)) => rewrite_kept(
                text,
                LineRewrite::SpaceCanon(tw),
            ),
            _ => text,
        }
    }
}

/// Converts the indentation of `replacement` from `source_style` to `target_style`.
pub fn convert_to_target_style(
    replacement: &str,
    source_style: IndentStyle,
    target_style: IndentStyle,
) -> (r: String)
    requires
        valid_width(source_style),
    ensures
        r@ == converted(replacement@, source_style, target_style),
{
    if source_style == target_style {
        return replacement.to_owned();
    }
    let c = chars_of(replacement);
    let m = match (source_style, target_style) {
        (IndentStyle::Spaces(sw), IndentStyle::Spaces(tw)) => LineRewrite::Rescale(sw, tw),
        (IndentStyle::Spaces(sw), IndentStyle::Tabs) => LineRewrite::SpacesToTabs(sw),
        (IndentStyle::Tabs, IndentStyle::Spaces(tw)) => LineRewrite::SpaceCanon(tw),
        _ => {
            return replacement.to_owned();
        },
    };
    let v = rewrite_kept_lines(&c, m);
    string_of(&v)
}

} // verus!

verus! {

/// Greatest common divisor, by Euclid's algorithm.
pub open spec fn gcd_spec(a: nat, b: nat) -> nat
    decreases b,
{
    if b == 0 {
        a
    } else {
        gcd_spec(b, a % b)
    }
}

/// Greatest common divisor.
pub fn gcd(a: usize, b: usize) -> (r: usize)
    ensures
        r == gcd_spec(a as nat, b as nat),
{
    let mut x: usize = a;
    let mut y: usize = b;
    while y != 0
        invariant
            gcd_spec(x as nat, y as nat) == gcd_spec(a as nat, b as nat),
        decreases y,
    {
        let t: usize = y;
        y = x % y;
        x = t;
    }
    x
}

/// Left fold of `gcd` over `xs`.
pub open spec fn gcd_all(xs: Seq<nat>) -> nat
    decreases xs.len(),
{
    if xs.len() == 0 {
        0
    } else if xs.len() == 1 {
        xs[0]
    } else {
        gcd_spec(gcd_all(xs.drop_last()), xs.last())
    }
}

/// The positive widths among the first five.
pub open spec fn top_widths(ws: Seq<nat>) -> Seq<nat> {
    (if ws.len() > 5 {
        ws.take(5)
    } else {
        ws
    }).filter(|w: nat| w > 0)
}

/// Base indentation unit of widths ranked most common first: the gcd of the
/// top five, unless that is 1 or above 8, when the most common is taken.
pub open spec fn base_of(ws: Seq<nat>) -> nat {
    let top = top_widths(ws);
    if top.len() == 0 {
        4
    } else {
        let g = gcd_all(top);
        if g == 1 || g > 8 {
            top[0]
        } else {
            g
        }
    }
}

pub open spec fn firsts(ws: Seq<(usize, usize)>) -> Seq<nat> {
    ws.map_values(|p: (usize, usize)| p.0 as nat)
}

/// Base indentation unit from `(width, count)` pairs ranked most common first.
pub fn find_indent_base(widths: &Vec<(usize, usize)>) -> (r: usize)
    ensures
        r == base_of(firsts(widths@)),
{
    let n: usize = if widths.len() > 5 { 5 } else { widths.len() };
    let ghost ws = firsts(widths@);
    let ghost pre = if ws.len() > 5 { ws.take(5) } else { ws };
    let mut top: Vec<usize> = Vec::new();
    let mut i: usize = 0;
    while i < n
        invariant
            n == pre.len(),
            pre == (if ws.len() > 5 { ws.take(5) } else { ws }),
            ws == firsts(widths@),
            n <= widths.len(),
            i <= n,
            top@.map_values(|w: usize| w as nat) == pre.take(i as int).filter(|w: nat| w > 0),
        decreases n - i,
    {
        proof {
            reveal(Seq::filter);
            assert(pre.take(i + 1).drop_last() =~= pre.take(i as int));
        }
        let w = widths[i].0;
        if w > 0 {
            top.push(w);
        }
        i = i + 1;
        assert(top@.map_values(|w: usize| w as nat) =~= pre.take(i as int).filter(|w: nat| w > 0));
    }
    assert(pre.take(i as int) =~= pre);
    let ghost tv = top@.map_values(|w: usize| w as nat);
    if top.len() == 0 {
        return 4;
    }
    let mut g: usize = top[0];
    let mut j: usize = 1;
    while j < top.len()
        invariant
            1 <= j <= top.len(),
            tv == top@.map_values(|w: usize| w as nat),
            g == gcd_all(tv.take(j as int)),
        decreases top.len() - j,
    {
        assert(tv.take(j + 1).drop_last() =~= tv.take(j as int));
        g = gcd(g, top[j]);
        j = j + 1;
    }
    assert(tv.take(j as int) =~= tv);
    if g == 1 || g > 8 {
        top[0]
    } else {
        g
    }
}

} // verus!

verus! {

/// A line that has content and leading whitespace.
pub open spec fn is_indented(l: Seq<char>) -> bool {
    trim(l).len() > 0 && lead_ws(l) > 0
}

pub open spec fn tab_led(l: Seq<char>) -> bool {
    is_indented(l) && l[0] == '\t'
}

pub open spec fn space_led(l: Seq<char>) -> bool {
    is_indented(l) && l[0] == ' '
}

/// Space-led indented lines whose leading whitespace is `w` characters.
pub open spec fn width_count(ls: Seq<Seq<char>>, w: nat) -> nat {
    ls.filter(|l: Seq<char>| space_led(l) && lead_ws(l) == w).len()
}

/// Largest leading-whitespace width of a space-led line.
pub open spec fn max_space_lead(ls: Seq<Seq<char>>) -> nat
    decreases ls.len(),
{
    if ls.len() == 0 {
        0
    } else {
        let m = max_space_lead(ls.drop_last());
        let l = ls.last();
        if space_led(l) && lead_ws(l) > m {
            lead_ws(l) as nat
        } else {
            m
        }
    }
}

/// Widths in `1..=m` that some space-led line has, ascending.
pub open spec fn widths_upto(ls: Seq<Seq<char>>, m: nat) -> Seq<nat>
    decreases m,
{
    if m == 0 {
        Seq::empty()
    } else if width_count(ls, m) > 0 {
        widths_upto(ls, (m - 1) as nat).push(m)
    } else {
        widths_upto(ls, (m - 1) as nat)
    }
}

/// `x` placed in `r` after every width at least as common.
pub open spec fn insert_by_count(ls: Seq<Seq<char>>, r: Seq<nat>, x: nat) -> Seq<nat>
    decreases r.len(),
{
    if r.len() == 0 {
        seq![x]
    } else if width_count(ls, x) > width_count(ls, r[0]) {
        seq![x] + r
    } else {
        seq![r[0]] + insert_by_count(ls, r.drop_first(), x)
    }
}

/// Stable ranking of `ws`, most common first.
pub open spec fn rank_by_count(ls: Seq<Seq<char>>, ws: Seq<nat>) -> Seq<nat>
    decreases ws.len(),
{
    if ws.len() == 0 {
        Seq::empty()
    } else {
        insert_by_count(ls, rank_by_count(ls, ws.drop_last()), ws.last())
    }
}

/// Widths of space-led lines, most common first, the smaller first among equals.
pub open spec fn ranked_widths(ls: Seq<Seq<char>>) -> Seq<nat> {
    rank_by_count(ls, widths_upto(ls, max_space_lead(ls)))
}

/// The lines looked at: the first hundred.
pub open spec fn sample(c: Seq<char>) -> Seq<Seq<char>> {
    let ls = lines_of(c);
    if ls.len() > 100 {
        ls.take(100)
    } else {
        ls
    }
}

/// The style that `c` shows, or `fallback` when it shows none.
pub open spec fn detected(c: Seq<char>, fallback: IndentStyle) -> IndentStyle {
    let ls = sample(c);
    let t = ls.filter(|l: Seq<char>| tab_led(l)).len();
    let sp = ls.filter(|l: Seq<char>| space_led(l)).len();
    let ind = ls.filter(|l: Seq<char>| is_indented(l)).len();
    if ind == 0 {
        fallback
    } else if t > sp {
        if sp > 0 && 5 * sp > ind {
            IndentStyle::Mixed
        } else {
            IndentStyle::Tabs
        }
    } else if sp == 0 {
        fallback
    } else {
        let r = ranked_widths(ls);
        let base = base_of(r);
        if 0 < base <= 8 {
            IndentStyle::Spaces(base as usize)
        } else if r.len() > 0 && 0 < r[0] <= 8 {
            IndentStyle::Spaces(r[0] as usize)
        } else {
            fallback
        }
    }
}

pub proof fn lemma_insert_by_count(ls: Seq<Seq<char>>, r: Seq<nat>, x: nat, p: int)
    requires
        0 <= p <= r.len(),
        forall|j: int| 0 <= j < p ==> width_count(ls, x) <= width_count(ls, #[trigger] r[j]),
        p == r.len() || width_count(ls, x) > width_count(ls, r[p]),
    ensures
        insert_by_count(ls, r, x) == r.insert(p, x),
    decreases r.len(),
{
    if r.len() == 0 {
        assert(r.insert(p, x) =~= seq![x]);
    } else if p == 0 {
        assert(r.insert(p, x) =~= seq![x] + r);
    } else {
        let rest = r.drop_first();
        assert forall|j: int| 0 <= j < p - 1 implies width_count(ls, x) <= width_count(
            ls,
            #[trigger] rest[j],
        ) by {
            assert(rest[j] == r[j + 1]);
        }
        lemma_insert_by_count(ls, rest, x, p - 1);
        assert(r.insert(p, x) =~= seq![r[0]] + rest.insert(p - 1, x));
    }
}

/// Number of lines of `ls` that are space-led with leading width `w`.
fn count_width(ls: &Vec<Vec<char>>, n: usize, w: usize) -> (r: usize)
    requires
        n <= ls.len(),
    ensures
        r == width_count(views(ls@).take(n as int), w as nat),
        r <= n,
{
    let ghost sv = views(ls@).take(n as int);
    let mut c: usize = 0;
    let mut i: usize = 0;
    while i < n
        invariant
            n <= ls.len(),
            sv == views(ls@).take(n as int),
            i <= n,
            c <= i,
            c == width_count(sv.take(i as int), w as nat),
        decreases n - i,
    {
        proof {
            reveal(Seq::filter);
            assert(sv.take(i + 1).drop_last() =~= sv.take(i as int));
            assert(sv[i as int] == ls@[i as int]@);
        }
        if is_space_led_width(&ls[i], w) {
            c = c + 1;
        }
        i = i + 1;
    }
    assert(sv.take(i as int) =~= sv);
    c
}

fn is_indented_line(l: &Vec<char>) -> (r: bool)
    ensures
        r == is_indented(l@),
{
    let t = trim_chars(l);
    t.len() > 0 && leading_ws_count(l) > 0
}

fn is_space_led_width(l: &Vec<char>, w: usize) -> (r: bool)
    ensures
        r == (space_led(l@) && lead_ws(l@) == w),
{
    is_indented_line(l) && l[0] == ' ' && leading_ws_count(l) == w
}

/// Detects the indentation style of `content` from its first hundred lines,
/// falling back on the customary style of the file extension.
pub fn detect_indent_style(content: &str, file_ext: &str) -> (r: IndentStyle)
    ensures
        r == detected(content@, extension_style(lower_of(file_ext@))),
{
    let fallback = language_default_indent(file_ext);
    let all = lines_of_str(content);
    let n: usize = if all.len() > 100 { 100 } else { all.len() };
    let ghost ls = sample(content@);
    assert(ls =~= views(all@).take(n as int));
    let mut t: usize = 0;
    let mut sp: usize = 0;
    let mut ind: usize = 0;
    let mut m: usize = 0;
    let mut i: usize = 0;
    while i < n
        invariant
            n <= all.len(),
            ls == views(all@).take(n as int),
            i <= n,
            t <= i,
            sp <= i,
            ind <= i,
            t == ls.take(i as int).filter(|l: Seq<char>| tab_led(l)).len(),
            sp == ls.take(i as int).filter(|l: Seq<char>| space_led(l)).len(),
            ind == ls.take(i as int).filter(|l: Seq<char>| is_indented(l)).len(),
            m == max_space_lead(ls.take(i as int)),
        decreases n - i,
    {
        proof {
            reveal(Seq::filter);
            assert(ls.take(i + 1).drop_last() =~= ls.take(i as int));
            assert(ls.take(i + 1).last() == all@[i as int]@);
        }
        let l = &all[i];
        if is_indented_line(l) {
            ind = ind + 1;
            if l[0] == '\t' {
                t = t + 1;
            } else if l[0] == ' ' {
                sp = sp + 1;
                let lead = leading_ws_count(l);
                if lead > m {
                    m = lead;
                }
            }
        }
        i = i + 1;
    }
    assert(ls.take(n as int) =~= ls);
    if ind == 0 {
        return fallback;
    }
    if t > sp {
        if sp > 0 && 5 * sp > ind {
            return IndentStyle::Mixed;
        }
        return IndentStyle::Tabs;
    }
    if sp == 0 {
        return fallback;
    }
    // widths ranked most common first
    let mut ranked: Vec<(usize, usize)> = Vec::new();
    let ghost mut rs: Seq<nat> = Seq::empty();
    let mut done: usize = 0;
    while done < m
        invariant
            n <= all.len(),
            ls == views(all@).take(n as int),
            m == max_space_lead(ls),
            done <= m,
            rs == rank_by_count(ls, widths_upto(ls, done as nat)),
            firsts(ranked@) == rs,
            forall|j: int| 0 <= j < ranked.len() ==> (#[trigger] ranked@[j]).1 == width_count(ls, ranked@[j].0 as nat),
        decreases m - done,
    {
        let w = done + 1;
        let c = count_width(&all, n, w);
        if c > 0 {
            let mut p: usize = 0;
            while p < ranked.len() && c <= ranked[p].1
                invariant
                    p <= ranked.len(),
                    firsts(ranked@) == rs,
                    c == width_count(ls, w as nat),
                    forall|j: int| 0 <= j < ranked.len() ==> (#[trigger] ranked@[j]).1 == width_count(ls, ranked@[j].0 as nat),
                    forall|j: int| 0 <= j < p ==> width_count(ls, w as nat) <= width_count(ls, #[trigger] rs[j]),
                decreases ranked.len() - p,
            {
                assert(rs[p as int] == ranked@[p as int].0 as nat);
                p = p + 1;
            }
            proof {
                if p < ranked.len() {
                    assert(rs[p as int] == ranked@[p as int].0 as nat);
                }
                lemma_insert_by_count(ls, rs, w as nat, p as int);
            }
            let ghost old_ranked = ranked@;
            ranked.insert(p, (w, c));
            proof {
                rs = rs.insert(p as int, w as nat);
                assert(firsts(ranked@) =~= rs);
                assert forall|j: int| 0 <= j < ranked.len() implies (#[trigger] ranked@[j]).1 == width_count(ls, ranked@[j].0 as nat) by {
                    if j < p {
                        assert(ranked@[j] == old_ranked[j]);
                    } else if j > p {
                        assert(ranked@[j] == old_ranked[j - 1]);
                    }
                }
                let ghost ws = widths_upto(ls, w as nat);
                assert(ws == widths_upto(ls, (w - 1) as nat).push(w as nat));
                assert(ws.drop_last() =~= widths_upto(ls, (w - 1) as nat));
            }
        }
        proof {
            if c == 0 {
                assert(widths_upto(ls, w as nat) == widths_upto(ls, done as nat));
            }
        }
        done = w;
    }
    let base = find_indent_base(&ranked);
    if 0 < base && base <= 8 {
        return IndentStyle::Spaces(base);
    }
    if ranked.len() > 0 && 0 < ranked[0].0 && ranked[0].0 <= 8 {
        assert(rs[0] == ranked@[0].0 as nat);
        return IndentStyle::Spaces(ranked[0].0);
    }
    fallback
}

} // verus!

verus! {

/// Index of the first `\n` of `s` at or after `i`, or the length of `s`.
pub open spec fn nl_from(s: Seq<char>, i: int) -> int
    decreases s.len() - i,
{
    if i < 0 || i >= s.len() {
        s.len() as int
    } else if s[i] == '\n' {
        i
    } else {
        nl_from(s, i + 1)
    }
}

/// Each line of `s` rewritten, with its own line ending (`\n`, `\r\n` or
/// none, for the text after the last break) kept as it is.
pub open spec fn rewrite_kept(s: Seq<char>, m: LineRewrite) -> Seq<char>
    decreases s.len(),
{
    let k = nl_from(s, 0);
    if k < 0 || k >= s.len() {
        rewrite_line(s, m)
    } else {
        let piece = s.take(k);
        let line = strip_cr(piece);
        rewrite_line(line, m) + piece.skip(line.len() as int) + seq!['\n'] + rewrite_kept(s.skip(k + 1), m)
    }
}

pub proof fn lemma_nl_from(s: Seq<char>, i: int)
    requires
        0 <= i <= s.len(),
    ensures
        i <= nl_from(s, i) <= s.len(),
        nl_from(s, i) < s.len() ==> s[nl_from(s, i)] == '\n',
        forall|t: int| i <= t < nl_from(s, i) ==> s[t] != '\n',
    decreases s.len() - i,
{
    if i < s.len() && s[i] != '\n' {
        lemma_nl_from(s, i + 1);
    }
}

proof fn lemma_nl_skip(s: Seq<char>, i: int, j: int)
    requires
        0 <= i <= j <= s.len(),
    ensures
        nl_from(s.skip(i), j - i) == nl_from(s, j) - i,
    decreases s.len() - j,
{
    if j < s.len() && s[j] != '\n' {
        lemma_nl_skip(s, i, j + 1);
    }
}

/// Rewrites each line of `text`, keeping every line ending.
pub fn rewrite_kept_lines(text: &Vec<char>, m: LineRewrite) -> (r: Vec<char>)
    requires
        rewrite_ok(m),
    ensures
        r@ == rewrite_kept(text@, m),
{
    let n = text.len();
    let mut out: Vec<char> = Vec::new();
    let mut i: usize = 0;
    assert(text@.skip(0) =~= text@);
    loop
        invariant
            rewrite_ok(m),
            n == text.len(),
            i <= n,
            out@ + rewrite_kept(text@.skip(i as int), m) == rewrite_kept(text@, m),
        decreases n - i,
    {
        let mut k: usize = i;
        while k < n && text[k] != '\n'
            invariant
                i <= k <= n,
                n == text.len(),
                nl_from(text@, i as int) == nl_from(text@, k as int),
            decreases n - k,
        {
            k = k + 1;
        }
        proof {
            lemma_nl_skip(text@, i as int, i as int);
            assert(nl_from(text@, k as int) == k);
        }
        let ghost t = text@.skip(i as int);
        if k == n {
            let piece = slice_chars(text, i, n);
            assert(piece@ =~= t);
            let done = rewrite_line_chars(&piece, m);
            push_all(&mut out, &done);
            return out;
        }
        let mut end: usize = k;
        if end > i && text[end - 1] == '\r' {
            end = end - 1;
        }
        let line = slice_chars(text, i, end);
        let piece_rest = slice_chars(text, end, k);
        let done = rewrite_line_chars(&line, m);
        proof {
            assert(t.take(k - i) =~= text@.subrange(i as int, k as int));
            assert(line@ =~= strip_cr(t.take(k - i)));
            assert(piece_rest@ =~= t.take(k - i).skip(line@.len() as int));
            assert(t.skip(k - i + 1) =~= text@.skip(k + 1));
        }
        push_all(&mut out, &done);
        push_all(&mut out, &piece_rest);
        out.push('\n');
        i = k + 1;
    }
}

} // verus!
