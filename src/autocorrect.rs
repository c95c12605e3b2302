//! Suggestions for a search string that was not found: an ordered pipeline of
//! independent fixes, each with a confidence in thousandths.
use vstd::prelude::*;
use crate::indent::{detect_indent_style, detected, extension_style, lower_of, IndentStyle};
use crate::matcher::{
    find_window, first_line, first_line_chars, fit_prefix, norm_indent, norm_lines,
    normalize_indentation_chars, replace_all_chars, trim_all, trim_each, trim_end_all,
    trim_end_each, window_from,
};
use crate::similarity::{find_closest_matches, meets_permille, meets_threshold, ranked_as, ClosestMatch};
use crate::text::{
    byte_len, chars_of, contains_sub, dec, has_sub, join_lines, join_nl, join_range, lead_ws,
    leading_ws_count, lines_of, push_dec, push_str_chars, replace_all_spec, same_chars,
    split_lines, string_of, views,
};

verus! {

/// Which kind of fix a correction is.
#[derive(Debug, Clone, Copy, PartialEq, Eq, Structural)]
pub enum CorrectionType {
    IndentationFix,
    WhitespaceFix,
    TrailingWhitespace,
    LineEndingFix,
    FuzzyMatch,
    TypoFix,
}

/// A proposed replacement for a search string that was not found.
#[derive(Debug, Clone)]
pub struct AutoCorrection {
    pub original_search: String,
    pub suggested_search: String,
    /// How sure the fix is, in thousandths.
    pub confidence: usize,
    pub reason: String,
    pub correction_type: CorrectionType,
}

/// A fix as values: suggestion, confidence, reason, kind.
pub type Fix = (Seq<char>, nat, Seq<char>, CorrectionType);

/// `r` proposes `fix` for `search`.
pub open spec fn proposes(r: Option<AutoCorrection>, search: Seq<char>, fix: Option<Fix>) -> bool {
    match fix {
        None => r is None,
        Some((suggested, confidence, reason, kind)) => match r {
            Some(a) => a.original_search@ == search && a.suggested_search@ == suggested
                && a.confidence == confidence && a.reason@ == reason && a.correction_type == kind,
            None => false,
        },
    }
}

fn correction(search: &str, suggested: Vec<char>, confidence: usize, reason: Vec<char>, kind: CorrectionType) -> (r: Option<AutoCorrection>)
    ensures
        proposes(r, search@, Some((suggested@, confidence as nat, reason@, kind))),
{
    Some(AutoCorrection {
        original_search: search.to_owned(),
        suggested_search: string_of(&suggested),
        confidence,
        reason: string_of(&reason),
        correction_type: kind,
    })
}

/// How a style reads in a reason.
pub open spec fn style_text(s: IndentStyle) -> Seq<char> {
    match s {
        IndentStyle::Spaces(w) => "Spaces("@ + dec(w as nat) + ")"@,
        IndentStyle::Tabs => "Tabs"@,
        IndentStyle::Mixed => "Mixed"@,
        IndentStyle::Unknown => "Unknown"@,
    }
}

/// The search matches once every line is trimmed: suggest the file's own lines.
pub open spec fn indentation_fix(c: Seq<char>, s: Seq<char>, style: IndentStyle) -> Option<Fix> {
    if !has_sub(norm_indent(c), norm_indent(s)) {
        None
    } else {
        match window_from(trim_all(lines_of(c)), norm_lines(s), 0) {
            Some(i) => Some((
                join_nl(lines_of(c).subrange(i, i + norm_lines(s).len())),
                950,
                "Search had "@ + dec(lead_ws(first_line(s)) as nat) + " leading spaces, file has "@
                    + dec(lead_ws(lines_of(c)[i]) as nat) + " ("@ + style_text(style) + ")"@,
                CorrectionType::IndentationFix,
            )),
            None => None,
        }
    }
}

fn push_style(out: &mut Vec<char>, s: IndentStyle)
    ensures
        final(out)@ == old(out)@ + style_text(s),
{
    match s {
        IndentStyle::Spaces(w) => {
            push_str_chars(out, "Spaces(");
            push_dec(out, w);
            push_str_chars(out, ")");
        },
        IndentStyle::Tabs => push_str_chars(out, "Tabs"),
        IndentStyle::Mixed => push_str_chars(out, "Mixed"),
        IndentStyle::Unknown => push_str_chars(out, "Unknown"),
    }
}

/// Tries a fix of indentation alone.
pub fn try_indentation_correction(content: &str, search: &str, file_ext: &str) -> (r: Option<AutoCorrection>)
    ensures
        proposes(r, search@, indentation_fix(content@, search@, detected(content@, extension_style(lower_of(file_ext@))))),
{
    let style = detect_indent_style(content, file_ext);
    let c = chars_of(content);
    let s = chars_of(search);
    let nc = normalize_indentation_chars(&c);
    let ns = normalize_indentation_chars(&s);
    if !contains_sub(&nc, &ns) {
        return None;
    }
    let cl = split_lines(&c);
    let tl = trim_each(&cl);
    let sl = split_lines(&ns);
    match find_window(&tl, &sl) {
        Some(i) => {
            let actual = join_range(&cl, i, i + sl.len());
            let sf = first_line_chars(&s);
            let mut reason: Vec<char> = Vec::new();
            push_str_chars(&mut reason, "Search had ");
            push_dec(&mut reason, leading_ws_count(&sf));
            push_str_chars(&mut reason, " leading spaces, file has ");
            push_dec(&mut reason, leading_ws_count(&cl[i]));
            push_str_chars(&mut reason, " (");
            push_style(&mut reason, style);
            push_str_chars(&mut reason, ")");
            correction(search, actual, 950, reason, CorrectionType::IndentationFix)
        },
        None => None,
    }
}

/// Trailing whitespace of each line was the difference.
pub open spec fn trailing_fix(c: Seq<char>, s: Seq<char>) -> Option<Fix> {
    let t = join_nl(trim_end_all(lines_of(s)));
    if t == s || !has_sub(c, t) {
        None
    } else {
        Some((t, 900, "Removed trailing whitespace from search string"@, CorrectionType::TrailingWhitespace))
    }
}

/// Tries removing trailing whitespace from each line of the search.
pub fn try_trailing_whitespace_correction(content: &str, search: &str) -> (r: Option<AutoCorrection>)
    ensures
        proposes(r, search@, trailing_fix(content@, search@)),
{
    let c = chars_of(content);
    let s = chars_of(search);
    let ls = split_lines(&s);
    let t = join_lines(&trim_end_each(&ls));
    if same_chars(&t, &s) || !contains_sub(&c, &t) {
        return None;
    }
    let mut reason: Vec<char> = Vec::new();
    push_str_chars(&mut reason, "Removed trailing whitespace from search string");
    correction(search, t, 900, reason, CorrectionType::TrailingWhitespace)
}

/// CRLF against LF line endings was the difference.
pub open spec fn line_ending_fix(c: Seq<char>, s: Seq<char>) -> Option<Fix> {
    let crlf = seq!['\r', '\n'];
    let lf = seq!['\n'];
    if has_sub(s, crlf) && !has_sub(c, crlf) && has_sub(c, replace_all_spec(s, crlf, lf)) {
        Some((replace_all_spec(s, crlf, lf), 950, "Converted CRLF to LF line endings"@, CorrectionType::LineEndingFix))
    } else if has_sub(c, crlf) && !has_sub(s, crlf) && has_sub(c, replace_all_spec(s, lf, crlf)) {
        Some((replace_all_spec(s, lf, crlf), 950, "Converted LF to CRLF line endings"@, CorrectionType::LineEndingFix))
    } else {
        None
    }
}

/// Tries converting the search's line endings to the file's.
pub fn try_line_ending_correction(content: &str, search: &str) -> (r: Option<AutoCorrection>)
    ensures
        proposes(r, search@, line_ending_fix(content@, search@)),
{
    let c = chars_of(content);
    let s = chars_of(search);
    let crlf: Vec<char> = vec!['\r', '\n'];
    let lf: Vec<char> = vec!['\n'];
    assert(crlf@ =~= seq!['\r', '\n']);
    assert(lf@ =~= seq!['\n']);
    let s_crlf = contains_sub(&s, &crlf);
    let c_crlf = contains_sub(&c, &crlf);
    if s_crlf && !c_crlf {
        let t = replace_all_chars(&s, &crlf, &lf);
        if contains_sub(&c, &t) {
            let mut reason: Vec<char> = Vec::new();
            push_str_chars(&mut reason, "Converted CRLF to LF line endings");
            return correction(search, t, 950, reason, CorrectionType::LineEndingFix);
        }
    }
    if c_crlf && !s_crlf {
        let t = replace_all_chars(&s, &lf, &crlf);
        if contains_sub(&c, &t) {
            let mut reason: Vec<char> = Vec::new();
            push_str_chars(&mut reason, "Converted LF to CRLF line endings");
            return correction(search, t, 950, reason, CorrectionType::LineEndingFix);
        }
    }
    None
}

/// The similarity `1 - d / l` in thousandths, rounded down (1000 when `l` is 0).
pub open spec fn permille(d: nat, l: nat) -> nat {
    if l == 0 {
        1000
    } else if d >= l {
        0
    } else {
        (1000 * (l - d) as nat) / l
    }
}

/// The best candidate is at least 90% similar: suggest it.
pub open spec fn fuzzy_fix(m: Seq<ClosestMatch>) -> Option<Fix> {
    if m.len() == 0 || !meets_permille(m[0].distance as nat, m[0].longest as nat, 900) {
        None
    } else {
        let p = permille(m[0].distance as nat, m[0].longest as nat);
        Some((
            m[0].content@,
            p,
            "Found "@ + dec(p / 10) + "% similar content at line "@ + dec(m[0].line as nat),
            CorrectionType::FuzzyMatch,
        ))
    }
}

fn permille_of(d: usize, l: usize) -> (r: usize)
    ensures
        r == permille(d as nat, l as nat),
        r <= 1000,
{
    if l == 0 {
        return 1000;
    }
    if d >= l {
        return 0;
    }
    let x: u128 = 1000u128 * ((l - d) as u128);
    let r = x / (l as u128);
    assert(r <= 1000) by (nonlinear_arith)
        requires
            r == x / (l as u128),
            x <= 1000 * l,
            l > 0,
    ;
    r as usize
}

/// Tries the best-ranked candidate as the search.
pub fn try_fuzzy_match_correction(search: &str, closest_matches: &Vec<ClosestMatch>) -> (r: Option<AutoCorrection>)
    ensures
        proposes(r, search@, fuzzy_fix(closest_matches@)),
{
    if closest_matches.len() == 0 {
        return None;
    }
    let best = &closest_matches[0];
    if !meets_threshold(best.distance, best.longest, 900) {
        return None;
    }
    let p = permille_of(best.distance, best.longest);
    let suggested = chars_of(best.content.as_str());
    let mut reason: Vec<char> = Vec::new();
    push_str_chars(&mut reason, "Found ");
    push_dec(&mut reason, p / 10);
    push_str_chars(&mut reason, "% similar content at line ");
    push_dec(&mut reason, best.line);
    correction(search, suggested, p, reason, CorrectionType::FuzzyMatch)
}

/// The first character position at or after `i` whose removal makes `s` occur in `c`.
pub open spec fn typo_from(c: Seq<char>, s: Seq<char>, i: int) -> Option<int>
    decreases s.len() - i,
{
    if i < 0 || i >= s.len() {
        None
    } else if has_sub(c, s.remove(i)) {
        Some(i)
    } else {
        typo_from(c, s, i + 1)
    }
}

/// One character too many was the difference, for a search of 5 to 200 bytes.
pub open spec fn typo_fix(c: Seq<char>, s: Seq<char>) -> Option<Fix> {
    if byte_len(s) > 200 || byte_len(s) < 5 {
        None
    } else {
        match typo_from(c, s, 0) {
            Some(i) => Some((s.remove(i), 850, "Removed extra character at position "@ + dec(i as nat), CorrectionType::TypoFix)),
            None => None,
        }
    }
}

/// Tries deleting each single character of the search in turn.
pub fn try_typo_correction(content: &str, search: &str) -> (r: Option<AutoCorrection>)
    ensures
        proposes(r, search@, typo_fix(content@, search@)),
{
    let c = chars_of(content);
    let s = chars_of(search);
    if fit_prefix(&s, 200) != s.len() || fit_prefix(&s, 4) == s.len() {
        return None;
    }
    let mut i: usize = 0;
    while i < s.len()
        invariant
            i <= s.len(),
            c@ == content@,
            s@ == search@,
            5 <= byte_len(s@) <= 200,
            typo_from(c@, s@, 0) == typo_from(c@, s@, i as int),
        decreases s.len() - i,
    {
        let mut candidate = s.clone();
        assert(candidate@ == s@);
        candidate.remove(i);
        if contains_sub(&c, &candidate) {
            let mut reason: Vec<char> = Vec::new();
            push_str_chars(&mut reason, "Removed extra character at position ");
            push_dec(&mut reason, i);
            return correction(search, candidate, 850, reason, CorrectionType::TypoFix);
        }
        i = i + 1;
    }
    None
}

/// The first fix of the pipeline that applies.
pub open spec fn first_fix(c: Seq<char>, s: Seq<char>, m: Seq<ClosestMatch>, style: IndentStyle) -> Option<Fix> {
    if indentation_fix(c, s, style) is Some {
        indentation_fix(c, s, style)
    } else if trailing_fix(c, s) is Some {
        trailing_fix(c, s)
    } else if line_ending_fix(c, s) is Some {
        line_ending_fix(c, s)
    } else if fuzzy_fix(m) is Some {
        fuzzy_fix(m)
    } else {
        typo_fix(c, s)
    }
}

/// Suggests a correction for a search that failed: indentation, then
/// trailing whitespace, then line endings, then the best fuzzy candidate,
/// then one extra character.
pub fn suggest_correction(content: &str, search: &str, closest_matches: &Vec<ClosestMatch>, file_ext: &str) -> (r: Option<AutoCorrection>)
    ensures
        proposes(r, search@, first_fix(content@, search@, closest_matches@, detected(content@, extension_style(lower_of(file_ext@))))),
{
    let r = try_indentation_correction(content, search, file_ext);
    if r.is_some() {
        return r;
    }
    let r = try_trailing_whitespace_correction(content, search);
    if r.is_some() {
        return r;
    }
    let r = try_line_ending_correction(content, search);
    if r.is_some() {
        return r;
    }
    let r = try_fuzzy_match_correction(search, closest_matches);
    if r.is_some() {
        return r;
    }
    try_typo_correction(content, search)
}

/// `r` carries `fix` when it is at least `t` thousandths sure, and nothing otherwise.
pub open spec fn auto_corrected(r: Option<(String, AutoCorrection)>, search: Seq<char>, fix: Option<Fix>, t: nat) -> bool {
    match fix {
        Some(f) => if f.1 >= t {
            match r {
                Some((x, a)) => x@ == f.0 && proposes(Some(a), search, Some(f)),
                None => false,
            }
        } else {
            r is None
        },
        None => r is None,
    }
}

/// The suggested search and the correction, when a correction is at least
/// `confidence_threshold` thousandths sure.
pub fn apply_auto_correction(content: &str, search: &str, file_ext: &str, confidence_threshold: usize) -> (r: Option<(String, AutoCorrection)>)
    ensures
        exists|m: Seq<ClosestMatch>| #[trigger] ranked_as(m, content@, search@, 500, 3) && auto_corrected(
            r,
            search@,
            first_fix(content@, search@, m, detected(content@, extension_style(lower_of(file_ext@)))),
            confidence_threshold as nat,
        ),
{
    let closest = find_closest_matches(content, search, 500, 3);
    match suggest_correction(content, search, &closest, file_ext) {
        Some(c) => {
            if c.confidence >= confidence_threshold {
                let s = c.suggested_search.clone();
                Some((s, c))
            } else {
                None
            }
        },
        None => None,
    }
}

} // verus!
