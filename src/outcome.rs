//! Errors of single edits, their structured outcomes, and the tally of a batch.
use vstd::prelude::*;
use crate::similarity::ClosestMatch;
use crate::text::{chars_of, dec, push_dec, push_str_chars, string_of};

verus! {

/// Why an edit failed.
#[derive(Debug)]
pub enum EditError {
    FileNotFound { path: String },
    SearchNotFound { path: String, search_preview: String, closest_matches: Vec<ClosestMatch> },
    AnchorNotFound { path: String, anchor_preview: String, closest_matches: Vec<ClosestMatch> },
    LineOutOfRange { path: String, line: usize, total_lines: usize },
    InvalidLineRange { path: String, start_line: usize, end_line: usize, total_lines: usize },
    ReadError { path: String, reason: String },
    WriteError { path: String, reason: String },
    DirectoryError { path: String, reason: String },
    DeleteError { path: String, reason: String },
    MultipleMatches { path: String, count: usize, search_preview: String },
    InvalidEdit { reason: String },
}

/// The result of an edit step.
pub type EditResult<T> = Result<T, EditError>;

/// The stable machine-readable name of an error's kind.
pub open spec fn code_of(e: EditError) -> Seq<char> {
    match e {
        EditError::FileNotFound { .. } => "file_not_found"@,
        EditError::SearchNotFound { .. } => "search_not_found"@,
        EditError::AnchorNotFound { .. } => "anchor_not_found"@,
        EditError::LineOutOfRange { .. } => "line_out_of_range"@,
        EditError::InvalidLineRange { .. } => "invalid_line_range"@,
        EditError::ReadError { .. } => "read_error"@,
        EditError::WriteError { .. } => "write_error"@,
        EditError::DirectoryError { .. } => "directory_error"@,
        EditError::DeleteError { .. } => "delete_error"@,
        EditError::MultipleMatches { .. } => "multiple_matches"@,
        EditError::InvalidEdit { .. } => "invalid_edit"@,
    }
}

/// The human-readable message of an error.
pub open spec fn message_of(e: EditError) -> Seq<char> {
    match e {
        EditError::FileNotFound { path } => "File not found: "@ + path@,
        EditError::SearchNotFound { path, .. } => "Search string not found in file: "@ + path@,
        EditError::AnchorNotFound { path, .. } => "Anchor string not found in file: "@ + path@,
        EditError::LineOutOfRange { path, line, total_lines } => "Line "@ + dec(line as nat)
            + " out of range (file has "@ + dec(total_lines as nat) + " lines): "@ + path@,
        EditError::InvalidLineRange { path, start_line, end_line, total_lines } =>
            "Invalid line range "@ + dec(start_line as nat) + "-"@ + dec(end_line as nat)
            + " (file has "@ + dec(total_lines as nat) + " lines): "@ + path@,
        EditError::ReadError { path, reason } => "Failed to read file: "@ + path@ + " - "@
            + reason@,
        EditError::WriteError { path, reason } => "Failed to write file: "@ + path@ + " - "@
            + reason@,
        EditError::DirectoryError { path, reason } => "Failed to create directory: "@ + path@
            + " - "@ + reason@,
        EditError::DeleteError { path, reason } => "Failed to delete file: "@ + path@ + " - "@
            + reason@,
        EditError::MultipleMatches { path, count, .. } => "Multiple matches found ("@ + dec(
            count as nat,
        ) + ") - search string is not unique: "@ + path@,
        EditError::InvalidEdit { reason } => "Invalid edit: "@ + reason@,
    }
}

fn push_string(out: &mut Vec<char>, s: &String)
    ensures
        final(out)@ == old(out)@ + s@,
{
    push_str_chars(out, s.as_str());
}

impl EditError {
    /// The machine-readable name of this error's kind.
    pub fn code(&self) -> (r: String)
        ensures
            r@ == code_of(*self),
    {
        let s = match self {
            EditError::FileNotFound { .. } => "file_not_found",
            EditError::SearchNotFound { .. } => "search_not_found",
            EditError::AnchorNotFound { .. } => "anchor_not_found",
            EditError::LineOutOfRange { .. } => "line_out_of_range",
            EditError::InvalidLineRange { .. } => "invalid_line_range",
            EditError::ReadError { .. } => "read_error",
            EditError::WriteError { .. } => "write_error",
            EditError::DirectoryError { .. } => "directory_error",
            EditError::DeleteError { .. } => "delete_error",
            EditError::MultipleMatches { .. } => "multiple_matches",
            EditError::InvalidEdit { .. } => "invalid_edit",
        };
        s.to_owned()
    }

    /// The human-readable message of this error.
    pub fn message(&self) -> (r: String)
        ensures
            r@ == message_of(*self),
    {
        let mut out: Vec<char> = Vec::new();
        match self {
            EditError::FileNotFound { path } => {
                push_str_chars(&mut out, "File not found: ");
                push_string(&mut out, path);
            },
            EditError::SearchNotFound { path, .. } => {
                push_str_chars(&mut out, "Search string not found in file: ");
                push_string(&mut out, path);
            },
            EditError::AnchorNotFound { path, .. } => {
                push_str_chars(&mut out, "Anchor string not found in file: ");
                push_string(&mut out, path);
            },
            EditError::LineOutOfRange { path, line, total_lines } => {
                push_str_chars(&mut out, "Line ");
                push_dec(&mut out, *line);
                push_str_chars(&mut out, " out of range (file has ");
                push_dec(&mut out, *total_lines);
                push_str_chars(&mut out, " lines): ");
                push_string(&mut out, path);
            },
            EditError::InvalidLineRange { path, start_line, end_line, total_lines } => {
                push_str_chars(&mut out, "Invalid line range ");
                push_dec(&mut out, *start_line);
                push_str_chars(&mut out, "-");
                push_dec(&mut out, *end_line);
                push_str_chars(&mut out, " (file has ");
                push_dec(&mut out, *total_lines);
                push_str_chars(&mut out, " lines): ");
                push_string(&mut out, path);
            },
            EditError::ReadError { path, reason } => {
                push_str_chars(&mut out, "Failed to read file: ");
                push_string(&mut out, path);
                push_str_chars(&mut out, " - ");
                push_string(&mut out, reason);
            },
            EditError::WriteError { path, reason } => {
                push_str_chars(&mut out, "Failed to write file: ");
                push_string(&mut out, path);
                push_str_chars(&mut out, " - ");
                push_string(&mut out, reason);
            },
            EditError::DirectoryError { path, reason } => {
                push_str_chars(&mut out, "Failed to create directory: ");
                push_string(&mut out, path);
                push_str_chars(&mut out, " - ");
                push_string(&mut out, reason);
            },
            EditError::DeleteError { path, reason } => {
                push_str_chars(&mut out, "Failed to delete file: ");
                push_string(&mut out, path);
                push_str_chars(&mut out, " - ");
                push_string(&mut out, reason);
            },
            EditError::MultipleMatches { path, count, .. } => {
                push_str_chars(&mut out, "Multiple matches found (");
                push_dec(&mut out, *count);
                push_str_chars(&mut out, ") - search string is not unique: ");
                push_string(&mut out, path);
            },
            EditError::InvalidEdit { reason } => {
                push_str_chars(&mut out, "Invalid edit: ");
                push_string(&mut out, reason);
            },
        }
        assert(out@ =~= message_of(*self));
        string_of(&out)
    }
}

} // verus!

verus! {

/// The similarity `1 - d / l` (1 when `l` is 0) is above `p / q`.
pub open spec fn similarity_above(d: nat, l: nat, p: nat, q: nat) -> bool {
    if l == 0 {
        p < q
    } else {
        q * l > p * l + q * d
    }
}

/// The similarity `1 - d / l` in whole percent, rounded down, at least 0.
pub open spec fn similarity_percent(d: nat, l: nat) -> nat {
    if l == 0 {
        100
    } else if d >= l {
        0
    } else {
        (100 * (l - d) as nat) / l
    }
}

/// A hint for a failed search, from its best-ranked candidate.
pub open spec fn hint_of(best: Option<(nat, nat, nat)>) -> Seq<char> {
    match best {
        None => "No similar content found. The file may have changed significantly."@,
        Some((line, d, l)) => if similarity_above(d, l, 9, 10) {
            "Very close match at line "@ + dec(line)
                + ". Check for minor differences (whitespace, punctuation)."@
        } else if similarity_above(d, l, 7, 10) {
            "Similar content found at line "@ + dec(line) + ". The code may have been modified."@
        } else {
            "Partial match at line "@ + dec(line) + " ("@ + dec(similarity_percent(d, l))
                + "% similar). The code structure may have changed."@
        },
    }
}

pub open spec fn best_of(m: Seq<ClosestMatch>) -> Option<(nat, nat, nat)> {
    if m.len() == 0 {
        None
    } else {
        Some((m[0].line as nat, m[0].distance as nat, m[0].longest as nat))
    }
}

fn above(d: usize, l: usize, p: usize, q: usize) -> (r: bool)
    requires
        p < q <= 10,
    ensures
        r == similarity_above(d as nat, l as nat, p as nat, q as nat),
{
    if l == 0 {
        return p < q;
    }
    assert((q as int) * (l as int) <= 10 * usize::MAX) by (nonlinear_arith)
        requires
            q <= 10,
            l <= usize::MAX,
    ;
    assert((p as int) * (l as int) <= 10 * usize::MAX) by (nonlinear_arith)
        requires
            p <= 10,
            l <= usize::MAX,
    ;
    assert((q as int) * (d as int) <= 10 * usize::MAX) by (nonlinear_arith)
        requires
            q <= 10,
            d <= usize::MAX,
    ;
    assert(usize::MAX <= u64::MAX);
    (q as u128) * (l as u128) > (p as u128) * (l as u128) + (q as u128) * (d as u128)
}

fn percent(d: usize, l: usize) -> (r: usize)
    ensures
        r == similarity_percent(d as nat, l as nat),
{
    if l == 0 {
        return 100;
    }
    if d >= l {
        return 0;
    }
    let x: u128 = 100u128 * ((l - d) as u128);
    let r = x / (l as u128);
    assert(r <= 100) by (nonlinear_arith)
        requires
            r == x / (l as u128),
            x <= 100 * l,
            l > 0,
    ;
    r as usize
}

/// Generates a hint from the best-ranked candidate of a failed search.
pub fn generate_hint_for_search_not_found(closest_matches: &Vec<ClosestMatch>) -> (r: String)
    ensures
        r@ == hint_of(best_of(closest_matches@)),
{
    let mut out: Vec<char> = Vec::new();
    if closest_matches.len() == 0 {
        push_str_chars(&mut out, "No similar content found. The file may have changed significantly.");
        return string_of(&out);
    }
    let best = &closest_matches[0];
    if above(best.distance, best.longest, 9, 10) {
        push_str_chars(&mut out, "Very close match at line ");
        push_dec(&mut out, best.line);
        push_str_chars(&mut out, ". Check for minor differences (whitespace, punctuation).");
    } else if above(best.distance, best.longest, 7, 10) {
        push_str_chars(&mut out, "Similar content found at line ");
        push_dec(&mut out, best.line);
        push_str_chars(&mut out, ". The code may have been modified.");
    } else {
        push_str_chars(&mut out, "Partial match at line ");
        push_dec(&mut out, best.line);
        push_str_chars(&mut out, " (");
        push_dec(&mut out, percent(best.distance, best.longest));
        push_str_chars(&mut out, "% similar). The code structure may have changed.");
    }
    assert(out@ =~= hint_of(best_of(closest_matches@)));
    string_of(&out)
}

/// What became of one edit.
#[allow(inconsistent_fields)]
#[derive(Debug, Clone)]
pub enum EditOutcome {
    Success {
        index: usize,
        path: String,
        edit_type: String,
        lines_affected: Option<Vec<usize>>,
        message: Option<String>,
    },
    Error {
        index: usize,
        path: String,
        edit_type: String,
        error: String,
        message: String,
        search_preview: Option<String>,
        closest_matches: Option<Vec<ClosestMatch>>,
        hint: Option<String>,
    },
    /// It went through, with something worth noting.
    Warning { index: usize, path: String, edit_type: String, warning: String, message: String },
}

/// `r` is the failure outcome of edit `index` on `path` for `e`.
pub open spec fn reports_error(r: EditOutcome, index: usize, path: Seq<char>, edit_type: Seq<char>, e: EditError) -> bool {
    match r {
        EditOutcome::Error { index: i, path: p, edit_type: t, error: code, message, search_preview, closest_matches, hint } => {
            &&& i == index
            &&& p@ == path
            &&& t@ == edit_type
            &&& code@ == code_of(e)
            &&& message@ == message_of(e)
            &&& match e {
                EditError::SearchNotFound { search_preview: sp, closest_matches: cm, .. } => {
                    &&& search_preview == Some(sp)
                    &&& closest_matches == Some(cm)
                    &&& hint is Some
                    &&& hint->0@ == hint_of(best_of(cm@))
                },
                EditError::AnchorNotFound { anchor_preview: sp, closest_matches: cm, .. } => {
                    &&& search_preview == Some(sp)
                    &&& closest_matches == Some(cm)
                    &&& hint is Some
                    &&& hint->0@ == hint_of(best_of(cm@))
                },
                _ => search_preview is None && closest_matches is None && hint is None,
            }
        },
        _ => false,
    }
}

impl EditOutcome {
    pub open spec fn succeeded(&self) -> bool {
        !(self is Error)
    }

    pub open spec fn path_of(&self) -> Seq<char> {
        match self {
            EditOutcome::Success { path, .. } => path@,
            EditOutcome::Error { path, .. } => path@,
            EditOutcome::Warning { path, .. } => path@,
        }
    }

    pub open spec fn kind_of(&self) -> Seq<char> {
        match self {
            EditOutcome::Success { edit_type, .. } => edit_type@,
            EditOutcome::Error { edit_type, .. } => edit_type@,
            EditOutcome::Warning { edit_type, .. } => edit_type@,
        }
    }

    pub open spec fn index_of(&self) -> usize {
        match self {
            EditOutcome::Success { index, .. } => *index,
            EditOutcome::Error { index, .. } => *index,
            EditOutcome::Warning { index, .. } => *index,
        }
    }

    /// A plain success.
    pub fn ok(index: usize, path: &str, edit_type: &str) -> (r: Self)
        ensures
            r matches EditOutcome::Success { index: i, path: p, edit_type: t, lines_affected, message }
                && i == index && p@ == path@ && t@ == edit_type@ && lines_affected is None
                && message is None,
    {
        EditOutcome::Success {
            index,
            path: path.to_owned(),
            edit_type: edit_type.to_owned(),
            lines_affected: None,
            message: None,
        }
    }

    /// A success with the lines it touched and a message.
    pub fn ok_with_details(
        index: usize,
        path: &str,
        edit_type: &str,
        lines_affected: Option<Vec<usize>>,
        message: Option<String>,
    ) -> (r: Self)
        ensures
            r matches EditOutcome::Success { index: i, path: p, edit_type: t, lines_affected: la, message: m }
                && i == index && p@ == path@ && t@ == edit_type@ && la == lines_affected && m
                == message,
    {
        EditOutcome::Success { index, path: path.to_owned(), edit_type: edit_type.to_owned(), lines_affected, message }
    }

    /// A failure described by `error`; a failed search or anchor also carries its
    /// preview, ranked candidates and a hint.
    pub fn from_error(index: usize, path: &str, edit_type: &str, error: EditError) -> (r: Self)
        ensures
            reports_error(r, index, path@, edit_type@, error),
    {
        let code = error.code();
        let message = error.message();
        match error {
            EditError::SearchNotFound { search_preview, closest_matches, .. } => {
                let hint = generate_hint_for_search_not_found(&closest_matches);
                EditOutcome::Error {
                    index,
                    path: path.to_owned(),
                    edit_type: edit_type.to_owned(),
                    error: code,
                    message,
                    search_preview: Some(search_preview),
                    closest_matches: Some(closest_matches),
                    hint: Some(hint),
                }
            },
            EditError::AnchorNotFound { anchor_preview, closest_matches, .. } => {
                let hint = generate_hint_for_search_not_found(&closest_matches);
                EditOutcome::Error {
                    index,
                    path: path.to_owned(),
                    edit_type: edit_type.to_owned(),
                    error: code,
                    message,
                    search_preview: Some(anchor_preview),
                    closest_matches: Some(closest_matches),
                    hint: Some(hint),
                }
            },
            _ => EditOutcome::Error {
                index,
                path: path.to_owned(),
                edit_type: edit_type.to_owned(),
                error: code,
                message,
                search_preview: None,
                closest_matches: None,
                hint: None,
            },
        }
    }

    /// A success that comes with a warning.
    pub fn warning(index: usize, path: &str, edit_type: &str, warning: &str, message: &str) -> (r: Self)
        ensures
            r matches EditOutcome::Warning { index: i, path: p, edit_type: t, warning: w, message: m }
                && i == index && p@ == path@ && t@ == edit_type@ && w@ == warning@ && m@ == message@,
    {
        EditOutcome::Warning {
            index,
            path: path.to_owned(),
            edit_type: edit_type.to_owned(),
            warning: warning.to_owned(),
            message: message.to_owned(),
        }
    }

    /// Whether the edit went through.
    pub fn is_success(&self) -> (r: bool)
        ensures
            r == self.succeeded(),
    {
        !matches!(self, EditOutcome::Error { .. })
    }
}

/// The outcomes of a batch, in input order, with their tally.
#[derive(Debug)]
pub struct ApplyResult {
    pub success: bool,
    pub applied: usize,
    pub failed: usize,
    pub edits: Vec<EditOutcome>,
}

/// Number of failed outcomes.
pub open spec fn failures(es: Seq<EditOutcome>) -> nat {
    es.filter(|o: EditOutcome| !o.succeeded()).len()
}

impl ApplyResult {
    /// The tally agrees with the outcomes.
    pub open spec fn consistent(&self) -> bool {
        &&& self.applied + self.failed == self.edits.len()
        &&& self.failed == failures(self.edits@)
        &&& self.success == (self.failed == 0)
    }

    pub fn new() -> (r: Self)
        ensures
            r.edits@.len() == 0,
            r.consistent(),
    {
        ApplyResult { success: true, applied: 0, failed: 0, edits: Vec::new() }
    }

    /// Records one more outcome.
    pub fn add_outcome(&mut self, outcome: EditOutcome)
        requires
            old(self).consistent(),
            old(self).edits.len() < usize::MAX,
        ensures
            final(self).edits@ == old(self).edits@.push(outcome),
            final(self).consistent(),
            final(self).success == (old(self).success && outcome.succeeded()),
    {
        proof {
            reveal(Seq::filter);
            assert(self.edits@.push(outcome).drop_last() =~= self.edits@);
            self.edits@.lemma_filter_len(|o: EditOutcome| !o.succeeded());
        }
        if outcome.is_success() {
            self.applied = self.applied + 1;
        } else {
            self.failed = self.failed + 1;
            self.success = false;
        }
        self.edits.push(outcome);
    }
}

impl Default for ApplyResult {
    fn default() -> (r: Self)
        ensures
            r.edits@.len() == 0,
            r.consistent(),
    {
        Self::new()
    }
}

} // verus!
