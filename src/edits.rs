//! The edit operations and what each does to a file's content.
use vstd::prelude::*;
use crate::matcher::{
    count_in, delete_line_range, delete_matching_lines, delete_matching_spec, delete_range_spec,
    ends_nl, insert_above_anchor, insert_after_spec, insert_at_line, insert_at_spec,
    insert_before_spec, insert_below_anchor, line_at, line_of_index, lines_without, preview,
    replace_all_chars, replace_norm_spec, replace_with_normalization_chars, splice, splice_chars,
    truncate_preview,
};
use crate::outcome::{reports_error, EditError, EditOutcome};
use crate::workspace::{FileModel, FileState, Workspace};
use crate::similarity::{find_closest_matches, ranked_as, ClosestMatch};
use crate::text::{
    chars_of, count_from, dec, find_first, find_sub, lemma_find_from,
    lemma_lines_len, lines_of, push_all, push_dec, push_str_chars, replace_all_spec, split_lines,
    slice_chars, string_of,
};

verus! {

/// One edit of a file, named by its path relative to the working root.
#[derive(Debug, Clone)]
pub enum Edit {
    /// Replace the first occurrence of `search`.
    Replace { path: String, search: String, replace: String },
    /// Replace every occurrence of `search`.
    ReplaceAll { path: String, search: String, replace: String },
    /// Insert `content` as lines below the first line containing `anchor`.
    InsertAfter { path: String, anchor: String, content: String },
    /// Insert `content` as lines above the first line containing `anchor`.
    InsertBefore { path: String, anchor: String, content: String },
    /// Insert `content` at a 1-based line.
    InsertAtLine { path: String, line: usize, content: String },
    /// Write the file, whether or not it exists.
    Create { path: String, content: String },
    DeleteFile { path: String },
    /// Delete 1-based lines `start_line..=end_line`.
    DeleteLines { path: String, start_line: usize, end_line: usize },
    /// Delete every line containing `search`.
    DeleteMatch { path: String, search: String },
    Append { path: String, content: String },
    Prepend { path: String, content: String },
}

impl Edit {
    pub open spec fn target(&self) -> Seq<char> {
        match self {
            Edit::Replace { path, .. } => path@,
            Edit::ReplaceAll { path, .. } => path@,
            Edit::InsertAfter { path, .. } => path@,
            Edit::InsertBefore { path, .. } => path@,
            Edit::InsertAtLine { path, .. } => path@,
            Edit::Create { path, .. } => path@,
            Edit::DeleteFile { path } => path@,
            Edit::DeleteLines { path, .. } => path@,
            Edit::DeleteMatch { path, .. } => path@,
            Edit::Append { path, .. } => path@,
            Edit::Prepend { path, .. } => path@,
        }
    }

    pub open spec fn kind(&self) -> Seq<char> {
        match self {
            Edit::Replace { .. } => "replace"@,
            Edit::ReplaceAll { .. } => "replace_all"@,
            Edit::InsertAfter { .. } => "insert_after"@,
            Edit::InsertBefore { .. } => "insert_before"@,
            Edit::InsertAtLine { .. } => "insert_at_line"@,
            Edit::Create { .. } => "create"@,
            Edit::DeleteFile { .. } => "delete_file"@,
            Edit::DeleteLines { .. } => "delete_lines"@,
            Edit::DeleteMatch { .. } => "delete_match"@,
            Edit::Append { .. } => "append"@,
            Edit::Prepend { .. } => "prepend"@,
        }
    }

    /// The path this edit touches.
    pub fn path(&self) -> (r: &str)
        ensures
            r@ == self.target(),
    {
        match self {
            Edit::Replace { path, .. } => path.as_str(),
            Edit::ReplaceAll { path, .. } => path.as_str(),
            Edit::InsertAfter { path, .. } => path.as_str(),
            Edit::InsertBefore { path, .. } => path.as_str(),
            Edit::InsertAtLine { path, .. } => path.as_str(),
            Edit::Create { path, .. } => path.as_str(),
            Edit::DeleteFile { path } => path.as_str(),
            Edit::DeleteLines { path, .. } => path.as_str(),
            Edit::DeleteMatch { path, .. } => path.as_str(),
            Edit::Append { path, .. } => path.as_str(),
            Edit::Prepend { path, .. } => path.as_str(),
        }
    }

    /// The name of this edit's kind.
    pub fn kind_name(&self) -> (r: &'static str)
        ensures
            r@ == self.kind(),
    {
        match self {
            Edit::Replace { .. } => "replace",
            Edit::ReplaceAll { .. } => "replace_all",
            Edit::InsertAfter { .. } => "insert_after",
            Edit::InsertBefore { .. } => "insert_before",
            Edit::InsertAtLine { .. } => "insert_at_line",
            Edit::Create { .. } => "create",
            Edit::DeleteFile { .. } => "delete_file",
            Edit::DeleteLines { .. } => "delete_lines",
            Edit::DeleteMatch { .. } => "delete_match",
            Edit::Append { .. } => "append",
            Edit::Prepend { .. } => "prepend",
        }
    }
}

/// A batch of edits as requested.
#[derive(Debug)]
pub struct EditRequest {
    pub edits: Vec<Edit>,
    pub commit_message: Option<String>,
    pub summary: Option<String>,
}

/// What an edit does to its file.
#[derive(Debug)]
pub enum Effect {
    /// The file stays as it is.
    Keep,
    /// The file gets this content.
    Write(String),
    /// The file goes.
    Remove,
}

/// A successful edit: its effect, a message, and a warning when something is
/// worth noting.
#[derive(Debug)]
pub struct Applied {
    pub effect: Effect,
    pub message: String,
    pub warning: Option<String>,
}

/// `res` writes `t` with message `m`.
pub open spec fn writes(res: Result<Applied, EditError>, t: Seq<char>, m: Seq<char>) -> bool {
    match res {
        Ok(a) => match a.effect {
            Effect::Write(x) => x@ == t && a.message@ == m && a.warning is None,
            _ => false,
        },
        Err(_) => false,
    }
}

/// `res` rejects the edit as malformed, for `reason`.
pub open spec fn invalid(res: Result<Applied, EditError>, reason: Seq<char>) -> bool {
    match res {
        Err(EditError::InvalidEdit { reason: r }) => r@ == reason,
        _ => false,
    }
}

/// `res` reports that `search` is not in `content`, with a preview and ranked candidates.
pub open spec fn search_missing(res: Result<Applied, EditError>, path: Seq<char>, content: Seq<char>, search: Seq<char>) -> bool {
    match res {
        Err(EditError::SearchNotFound { path: p, search_preview, closest_matches }) => p@ == path
            && search_preview@ == preview(search, 200) && ranked_as(closest_matches@, content, search, 500, 3),
        _ => false,
    }
}

/// `res` reports that no line of `content` holds `anchor`, with a preview and ranked candidates.
pub open spec fn anchor_missing(res: Result<Applied, EditError>, path: Seq<char>, content: Seq<char>, anchor: Seq<char>) -> bool {
    match res {
        Err(EditError::AnchorNotFound { path: p, anchor_preview, closest_matches }) => p@ == path
            && anchor_preview@ == preview(anchor, 200) && ranked_as(closest_matches@, content, anchor, 500, 3),
        _ => false,
    }
}

pub open spec fn msg_replaced_one(first: int, last: int) -> Seq<char> {
    if first == last {
        "Replaced 1 occurrence (line "@ + dec(first as nat) + ")"@
    } else {
        "Replaced 1 occurrence (lines "@ + dec(first as nat) + "-"@ + dec(last as nat) + ")"@
    }
}

pub open spec fn msg_adjusted(note: Seq<char>) -> Seq<char> {
    "Replaced with indentation adjustment ("@ + note + ")"@
}

/// The result of a `Replace`: first verbatim, then with indentation ignored.
pub open spec fn replace_done(res: Result<Applied, EditError>, path: Seq<char>, c: Seq<char>, s: Seq<char>, r: Seq<char>) -> bool {
    if s.len() == 0 {
        invalid(res, "Search string cannot be empty"@)
    } else {
        match find_first(c, s) {
            Some(k) => writes(res, splice(c, k, s.len() as int, r), msg_replaced_one(line_at(c, k), line_at(c, k + s.len()))),
            None => match replace_norm_spec(c, s, r) {
                Some((t, note)) => writes(res, t, msg_adjusted(note)),
                None => search_missing(res, path, c, s),
            },
        }
    }
}

fn invalid_edit(reason: &str) -> (r: Result<Applied, EditError>)
    ensures
        invalid(r, reason@),
{
    Err(EditError::InvalidEdit { reason: reason.to_owned() })
}

fn search_not_found(path: &str, content: &str, search: &str) -> (r: Result<Applied, EditError>)
    ensures
        search_missing(r, path@, content@, search@),
{
    let closest = find_closest_matches(content, search, 500, 3);
    Err(EditError::SearchNotFound { path: path.to_owned(), search_preview: truncate_preview(search, 200), closest_matches: closest })
}

fn anchor_not_found(path: &str, content: &str, anchor: &str) -> (r: Result<Applied, EditError>)
    ensures
        anchor_missing(r, path@, content@, anchor@),
{
    let closest = find_closest_matches(content, anchor, 500, 3);
    Err(EditError::AnchorNotFound { path: path.to_owned(), anchor_preview: truncate_preview(anchor, 200), closest_matches: closest })
}

fn write_with(content: Vec<char>, message: Vec<char>) -> (r: Result<Applied, EditError>)
    ensures
        writes(r, content@, message@),
{
    Ok(Applied { effect: Effect::Write(string_of(&content)), message: string_of(&message), warning: None })
}

/// Replaces the first occurrence of `search` in `content`, falling back on a
/// match with indentation ignored, re-indenting `replace` to the file's own.
pub fn apply_replace(path: &str, content: &str, search: &str, replace: &str) -> (res: Result<Applied, EditError>)
    ensures
        replace_done(res, path@, content@, search@, replace@),
{
    if search.is_empty() {
        return invalid_edit("Search string cannot be empty");
    }
    let c = chars_of(content);
    let s = chars_of(search);
    let r = chars_of(replace);
    if let Some(k) = find_sub(&c, &s) {
        proof {
            lemma_find_from(c@, s@, 0);
        }
        let out = splice_chars(&c, k, s.len(), &r);
        let first = line_of_index(&c, k);
        let last = line_of_index(&c, k + s.len());
        let mut msg: Vec<char> = Vec::new();
        if first == last {
            push_str_chars(&mut msg, "Replaced 1 occurrence (line ");
            push_dec(&mut msg, first);
            push_str_chars(&mut msg, ")");
        } else {
            push_str_chars(&mut msg, "Replaced 1 occurrence (lines ");
            push_dec(&mut msg, first);
            push_str_chars(&mut msg, "-");
            push_dec(&mut msg, last);
            push_str_chars(&mut msg, ")");
        }
        assert(msg@ =~= msg_replaced_one(line_at(c@, k as int), line_at(c@, k + s.len())));
        return write_with(out, msg);
    }
    match replace_with_normalization_chars(&c, &s, &r) {
        Some((out, note)) => {
            let mut msg: Vec<char> = Vec::new();
            push_str_chars(&mut msg, "Replaced with indentation adjustment (");
            push_all(&mut msg, &note);
            push_str_chars(&mut msg, ")");
            assert(msg@ =~= msg_adjusted(note@));
            write_with(out, msg)
        },
        None => search_not_found(path, content, search),
    }
}

pub open spec fn msg_replaced_n(n: nat) -> Seq<char> {
    "Replaced "@ + dec(n) + " occurrence(s)"@
}

/// Replaces every occurrence of `search`; none at all is an error.
pub fn apply_replace_all(path: &str, content: &str, search: &str, replace_with: &str) -> (res: Result<Applied, EditError>)
    ensures
        search@.len() == 0 ==> invalid(res, "Search string cannot be empty"@),
        search@.len() > 0 && count_from(content@, search@, 0) == 0 ==> search_missing(res, path@, content@, search@),
        search@.len() > 0 && count_from(content@, search@, 0) > 0 ==> writes(
            res,
            replace_all_spec(content@, search@, replace_with@),
            msg_replaced_n(count_from(content@, search@, 0)),
        ),
{
    if search.is_empty() {
        return invalid_edit("Search string cannot be empty");
    }
    let c = chars_of(content);
    let s = chars_of(search);
    let r = chars_of(replace_with);
    let n = count_in(&c, &s);
    if n == 0 {
        return search_not_found(path, content, search);
    }
    let out = replace_all_chars(&c, &s, &r);
    let mut msg: Vec<char> = Vec::new();
    push_str_chars(&mut msg, "Replaced ");
    push_dec(&mut msg, n);
    push_str_chars(&mut msg, " occurrence(s)");
    write_with(out, msg)
}

} // verus!

verus! {

/// The result of an `InsertAfter`.
pub open spec fn insert_after_done(res: Result<Applied, EditError>, path: Seq<char>, c: Seq<char>, a: Seq<char>, n: Seq<char>) -> bool {
    if a.len() == 0 {
        invalid(res, "Anchor string cannot be empty"@)
    } else {
        match insert_after_spec(c, a, n) {
            Some((t, line)) => writes(res, t, "Inserted after anchor at line "@ + dec((line - 1) as nat)),
            None => anchor_missing(res, path, c, a),
        }
    }
}

/// The result of an `InsertBefore`.
pub open spec fn insert_before_done(res: Result<Applied, EditError>, path: Seq<char>, c: Seq<char>, a: Seq<char>, n: Seq<char>) -> bool {
    if a.len() == 0 {
        invalid(res, "Anchor string cannot be empty"@)
    } else {
        match insert_before_spec(c, a, n) {
            Some((t, line)) => writes(res, t, "Inserted before anchor at line "@ + dec(line as nat)),
            None => anchor_missing(res, path, c, a),
        }
    }
}

/// Inserts `new_content` as lines below the first line containing `anchor`.
pub fn apply_insert_after(path: &str, content: &str, anchor: &str, new_content: &str) -> (res: Result<Applied, EditError>)
    ensures
        insert_after_done(res, path@, content@, anchor@, new_content@),
{
    if anchor.is_empty() {
        return invalid_edit("Anchor string cannot be empty");
    }
    let c = chars_of(content);
    let a = chars_of(anchor);
    let nw = chars_of(new_content);
    proof {
        lemma_lines_len(c@);
    }
    match insert_below_anchor(&c, &a, &nw) {
        Some((out, i)) => {
            assert(lines_of(c@).len() <= c.len());
            let mut msg: Vec<char> = Vec::new();
            push_str_chars(&mut msg, "Inserted after anchor at line ");
            push_dec(&mut msg, i + 1);
            write_with(out, msg)
        },
        None => anchor_not_found(path, content, anchor),
    }
}

/// Inserts `new_content` as lines above the first line containing `anchor`.
pub fn apply_insert_before(path: &str, content: &str, anchor: &str, new_content: &str) -> (res: Result<Applied, EditError>)
    ensures
        insert_before_done(res, path@, content@, anchor@, new_content@),
{
    if anchor.is_empty() {
        return invalid_edit("Anchor string cannot be empty");
    }
    let c = chars_of(content);
    let a = chars_of(anchor);
    let nw = chars_of(new_content);
    proof {
        lemma_lines_len(c@);
    }
    match insert_above_anchor(&c, &a, &nw) {
        Some((out, i)) => {
            assert(lines_of(c@).len() <= c.len());
            let mut msg: Vec<char> = Vec::new();
            push_str_chars(&mut msg, "Inserted before anchor at line ");
            push_dec(&mut msg, i + 1);
            write_with(out, msg)
        },
        None => anchor_not_found(path, content, anchor),
    }
}

/// The result of an `InsertAtLine`: line 0 is malformed, a line past one
/// after the last is out of range.
pub open spec fn insert_at_done(res: Result<Applied, EditError>, path: Seq<char>, c: Seq<char>, line: usize, n: Seq<char>) -> bool {
    let total = lines_of(c).len();
    if line == 0 {
        invalid(res, "Line number must be >= 1"@)
    } else if line > total + 1 {
        match res {
            Err(EditError::LineOutOfRange { path: p, line: l, total_lines }) => p@ == path && l == line
                && total_lines == total,
            _ => false,
        }
    } else {
        match insert_at_spec(c, line as int, n) {
            Some(t) => writes(res, t, "Inserted at line "@ + dec(line as nat)),
            None => false,
        }
    }
}

/// Inserts `new_content` at the 1-based line `line`.
pub fn apply_insert_at_line(path: &str, content: &str, line: usize, new_content: &str) -> (res: Result<Applied, EditError>)
    ensures
        insert_at_done(res, path@, content@, line, new_content@),
{
    let c = chars_of(content);
    let total = split_lines(&c).len();
    if line == 0 {
        return invalid_edit("Line number must be >= 1");
    }
    if line - 1 > total {
        return Err(EditError::LineOutOfRange { path: path.to_owned(), line, total_lines: total });
    }
    let t = insert_at_line(content, line, new_content).unwrap();
    let mut msg: Vec<char> = Vec::new();
    push_str_chars(&mut msg, "Inserted at line ");
    push_dec(&mut msg, line);
    Ok(Applied { effect: Effect::Write(t), message: string_of(&msg), warning: None })
}

/// The message of a `Create`: its lines and its bytes in UTF-8.
pub open spec fn msg_created(c: Seq<char>) -> Seq<char> {
    "Created file ("@ + dec(lines_of(c).len()) + " lines, "@ + dec(
        (vstd::utf8::encode_utf8(c).len() as usize) as nat,
    ) + " bytes)"@
}

/// The result of a `DeleteFile`: one that is already gone is no error.
pub open spec fn delete_file_done(res: Result<Applied, EditError>, exists: bool) -> bool {
    match res {
        Ok(a) => a.warning is None && if exists {
            a.effect is Remove && a.message@ == "Deleted file"@
        } else {
            a.effect is Keep && a.message@ == "File did not exist (already deleted)"@
        },
        Err(_) => false,
    }
}

/// Writes `content` as the whole file.
pub fn apply_create(path: &str, content: &str) -> (res: Result<Applied, EditError>)
    ensures
        writes(res, content@, msg_created(content@)),
{
    let c = chars_of(content);
    let lines = split_lines(&c).len();
    let bytes = content.len();
    let mut msg: Vec<char> = Vec::new();
    push_str_chars(&mut msg, "Created file (");
    push_dec(&mut msg, lines);
    push_str_chars(&mut msg, " lines, ");
    push_dec(&mut msg, bytes);
    push_str_chars(&mut msg, " bytes)");
    write_with(c, msg)
}

/// Deletes the file; one that is already gone is no error.
pub fn apply_delete_file(path: &str, exists: bool) -> (res: Result<Applied, EditError>)
    ensures
        delete_file_done(res, exists),
{
    if !exists {
        return Ok(Applied { effect: Effect::Keep, message: "File did not exist (already deleted)".to_owned(), warning: None });
    }
    Ok(Applied { effect: Effect::Remove, message: "Deleted file".to_owned(), warning: None })
}

pub open spec fn msg_deleted_lines(start: nat, end: nat) -> Seq<char> {
    if end - start + 1 == 1 {
        "Deleted line "@ + dec(start)
    } else {
        "Deleted "@ + dec((end - start + 1) as nat) + " lines ("@ + dec(start) + "-"@ + dec(end) + ")"@
    }
}

/// The result of a `DeleteLines`: it needs `1 <= start <= end <= total`.
pub open spec fn delete_lines_done(res: Result<Applied, EditError>, path: Seq<char>, c: Seq<char>, start: usize, end: usize) -> bool {
    let total = lines_of(c).len();
    if start == 0 || end == 0 {
        invalid(res, "Line numbers must be >= 1"@)
    } else if start > end {
        invalid(res, "Start line ("@ + dec(start as nat) + ") must be <= end line ("@ + dec(end as nat) + ")"@)
    } else if end > total {
        match res {
            Err(EditError::InvalidLineRange { path: p, start_line, end_line, total_lines }) => p@ == path
                && start_line == start && end_line == end && total_lines == total,
            _ => false,
        }
    } else {
        match delete_range_spec(c, start as int, end as int) {
            Some(t) => writes(res, t, msg_deleted_lines(start as nat, end as nat)),
            None => false,
        }
    }
}

/// Deletes the 1-based lines `start_line..=end_line`.
pub fn apply_delete_lines(path: &str, content: &str, start_line: usize, end_line: usize) -> (res: Result<Applied, EditError>)
    ensures
        delete_lines_done(res, path@, content@, start_line, end_line),
{
    let c = chars_of(content);
    let total = split_lines(&c).len();
    if start_line == 0 || end_line == 0 {
        return invalid_edit("Line numbers must be >= 1");
    }
    if start_line > end_line {
        let mut reason: Vec<char> = Vec::new();
        push_str_chars(&mut reason, "Start line (");
        push_dec(&mut reason, start_line);
        push_str_chars(&mut reason, ") must be <= end line (");
        push_dec(&mut reason, end_line);
        push_str_chars(&mut reason, ")");
        return Err(EditError::InvalidEdit { reason: string_of(&reason) });
    }
    if end_line > total {
        return Err(EditError::InvalidLineRange { path: path.to_owned(), start_line, end_line, total_lines: total });
    }
    let t = delete_line_range(content, start_line, end_line).unwrap();
    let deleted = end_line - start_line + 1;
    let mut msg: Vec<char> = Vec::new();
    if deleted == 1 {
        push_str_chars(&mut msg, "Deleted line ");
        push_dec(&mut msg, start_line);
    } else {
        push_str_chars(&mut msg, "Deleted ");
        push_dec(&mut msg, deleted);
        push_str_chars(&mut msg, " lines (");
        push_dec(&mut msg, start_line);
        push_str_chars(&mut msg, "-");
        push_dec(&mut msg, end_line);
        push_str_chars(&mut msg, ")");
    }
    assert(msg@ =~= msg_deleted_lines(start_line as nat, end_line as nat));
    Ok(Applied { effect: Effect::Write(t), message: string_of(&msg), warning: None })
}

/// Number of lines of `c` that contain `s`.
pub open spec fn matching_lines(c: Seq<char>, s: Seq<char>) -> nat {
    (lines_of(c).len() - lines_without(lines_of(c), s).len()) as nat
}

/// The result of a `DeleteMatch`: nothing matching is a warning, not an error.
pub open spec fn delete_match_done(res: Result<Applied, EditError>, c: Seq<char>, s: Seq<char>) -> bool {
    if s.len() == 0 {
        invalid(res, "Search string cannot be empty"@)
    } else if matching_lines(c, s) == 0 {
        match res {
            Ok(a) => a.effect is Keep && a.message@ == "No matching lines found (nothing deleted)"@
                && a.warning is Some && a.warning->0@ == "No matching lines found"@,
            Err(_) => false,
        }
    } else {
        writes(
            res,
            delete_matching_spec(c, s),
            if matching_lines(c, s) == 1 {
                "Deleted 1 matching line"@
            } else {
                "Deleted "@ + dec(matching_lines(c, s)) + " matching lines"@
            },
        )
    }
}

/// Deletes every line containing `search`.
pub fn apply_delete_match(path: &str, content: &str, search: &str) -> (res: Result<Applied, EditError>)
    ensures
        delete_match_done(res, content@, search@),
{
    if search.is_empty() {
        return invalid_edit("Search string cannot be empty");
    }
    let (t, n) = delete_matching_lines(content, search);
    if n == 0 {
        return Ok(Applied {
            effect: Effect::Keep,
            message: "No matching lines found (nothing deleted)".to_owned(),
            warning: Some("No matching lines found".to_owned()),
        });
    }
    let mut msg: Vec<char> = Vec::new();
    if n == 1 {
        push_str_chars(&mut msg, "Deleted 1 matching line");
    } else {
        push_str_chars(&mut msg, "Deleted ");
        push_dec(&mut msg, n);
        push_str_chars(&mut msg, " matching lines");
    }
    Ok(Applied { effect: Effect::Write(t), message: string_of(&msg), warning: None })
}

pub open spec fn starts_nl(s: Seq<char>) -> bool {
    s.len() > 0 && s[0] == '\n'
}

/// `s` without one final line break.
pub open spec fn drop_final_nl(s: Seq<char>) -> Seq<char> {
    if ends_nl(s) {
        s.drop_last()
    } else {
        s
    }
}

/// `s` without one leading line break.
pub open spec fn drop_leading_nl(s: Seq<char>) -> Seq<char> {
    if starts_nl(s) {
        s.drop_first()
    } else {
        s
    }
}

/// `first` then `second` with exactly one `\n` between them, whether either
/// side already had one there; an empty `first` gives `second` as it is.
pub open spec fn joined(first: Seq<char>, second: Seq<char>) -> Seq<char> {
    if first.len() == 0 {
        second
    } else {
        drop_final_nl(first) + seq!['\n'] + drop_leading_nl(second)
    }
}

fn join_parts(first: &Vec<char>, second: &Vec<char>) -> (r: Vec<char>)
    ensures
        r@ == joined(first@, second@),
{
    if first.len() == 0 {
        let mut out: Vec<char> = Vec::new();
        push_all(&mut out, second);
        assert(out@ =~= second@);
        return out;
    }
    let end: usize = if first[first.len() - 1] == '\n' { first.len() - 1 } else { first.len() };
    let mut out = slice_chars(first, 0, end);
    out.push('\n');
    let start: usize = if second.len() > 0 && second[0] == '\n' { 1 } else { 0 };
    let rest = slice_chars(second, start, second.len());
    push_all(&mut out, &rest);
    assert(out@ =~= joined(first@, second@));
    out
}

/// Appends `new_content` at the end of the file.
pub fn apply_append(path: &str, content: &str, new_content: &str) -> (res: Result<Applied, EditError>)
    ensures
        writes(res, joined(content@, new_content@), "Appended "@ + dec(lines_of(new_content@).len()) + " line(s)"@),
{
    let c = chars_of(content);
    let nw = chars_of(new_content);
    let out = join_parts(&c, &nw);
    let mut msg: Vec<char> = Vec::new();
    push_str_chars(&mut msg, "Appended ");
    push_dec(&mut msg, split_lines(&nw).len());
    push_str_chars(&mut msg, " line(s)");
    write_with(out, msg)
}

/// Puts `new_content` at the start of the file.
pub fn apply_prepend(path: &str, content: &str, new_content: &str) -> (res: Result<Applied, EditError>)
    ensures
        writes(res, joined(new_content@, content@), "Prepended "@ + dec(lines_of(new_content@).len()) + " line(s)"@),
{
    let c = chars_of(content);
    let nw = chars_of(new_content);
    let out = join_parts(&nw, &c);
    let mut msg: Vec<char> = Vec::new();
    push_str_chars(&mut msg, "Prepended ");
    push_dec(&mut msg, split_lines(&nw).len());
    push_str_chars(&mut msg, " line(s)");
    write_with(out, msg)
}

} // verus!

verus! {

/// Whether `e` goes through on a file holding `f`.
pub open spec fn succeeds_on(e: Edit, f: FileModel) -> bool {
    match e {
        Edit::Create { .. } => true,
        Edit::DeleteFile { .. } => true,
        _ => match f {
            FileModel::Text(c) => match e {
                Edit::Replace { search, replace, .. } => search@.len() > 0 && (find_first(c, search@) is Some
                    || replace_norm_spec(c, search@, replace@) is Some),
                Edit::ReplaceAll { search, .. } => search@.len() > 0 && count_from(c, search@, 0) > 0,
                Edit::InsertAfter { anchor, content, .. } => anchor@.len() > 0 && insert_after_spec(c, anchor@, content@) is Some,
                Edit::InsertBefore { anchor, content, .. } => anchor@.len() > 0 && insert_before_spec(c, anchor@, content@) is Some,
                Edit::InsertAtLine { line, .. } => 0 < line && line <= lines_of(c).len() + 1,
                Edit::DeleteLines { start_line, end_line, .. } => 0 < start_line && start_line <= end_line
                    && end_line <= lines_of(c).len(),
                Edit::DeleteMatch { search, .. } => search@.len() > 0,
                _ => true,
            },
            _ => false,
        },
    }
}

/// What the file holds after `e` went through on a file holding `f`.
pub open spec fn after(e: Edit, f: FileModel) -> FileModel {
    match e {
        Edit::Create { content, .. } => FileModel::Text(content@),
        Edit::DeleteFile { .. } => FileModel::Missing,
        _ => match f {
            FileModel::Text(c) => match e {
                Edit::Replace { search, replace, .. } => match find_first(c, search@) {
                    Some(k) => FileModel::Text(splice(c, k, search@.len() as int, replace@)),
                    None => match replace_norm_spec(c, search@, replace@) {
                        Some((t, _)) => FileModel::Text(t),
                        None => f,
                    },
                },
                Edit::ReplaceAll { search, replace, .. } => FileModel::Text(replace_all_spec(c, search@, replace@)),
                Edit::InsertAfter { anchor, content, .. } => match insert_after_spec(c, anchor@, content@) {
                    Some((t, _)) => FileModel::Text(t),
                    None => f,
                },
                Edit::InsertBefore { anchor, content, .. } => match insert_before_spec(c, anchor@, content@) {
                    Some((t, _)) => FileModel::Text(t),
                    None => f,
                },
                Edit::InsertAtLine { line, content, .. } => match insert_at_spec(c, line as int, content@) {
                    Some(t) => FileModel::Text(t),
                    None => f,
                },
                Edit::DeleteLines { start_line, end_line, .. } => match delete_range_spec(c, start_line as int, end_line as int) {
                    Some(t) => FileModel::Text(t),
                    None => f,
                },
                Edit::DeleteMatch { search, .. } => if matching_lines(c, search@) == 0 {
                    f
                } else {
                    FileModel::Text(delete_matching_spec(c, search@))
                },
                Edit::Append { content, .. } => FileModel::Text(joined(c, content@)),
                Edit::Prepend { content, .. } => FileModel::Text(joined(content@, c)),
                _ => f,
            },
            _ => f,
        },
    }
}

/// What a file holding `f` holds once `effect` is carried out.
pub open spec fn effect_on(effect: Effect, f: FileModel) -> FileModel {
    match effect {
        Effect::Keep => f,
        Effect::Write(t) => FileModel::Text(t@),
        Effect::Remove => FileModel::Missing,
    }
}

/// The detailed result of `e` on a file holding `f`.
pub open spec fn edit_done(e: Edit, f: FileModel, res: Result<Applied, EditError>) -> bool {
    match e {
        Edit::Create { content, .. } => writes(res, content@, msg_created(content@)),
        Edit::DeleteFile { .. } => delete_file_done(res, !(f is Missing)),
        _ => match f {
            FileModel::Missing => match res {
                Err(EditError::FileNotFound { path }) => path@ == e.target(),
                _ => false,
            },
            FileModel::Unreadable(why) => match res {
                Err(EditError::ReadError { path, reason }) => path@ == e.target() && reason@ == why,
                _ => false,
            },
            FileModel::Text(c) => match e {
                Edit::Replace { path, search, replace } => replace_done(res, path@, c, search@, replace@),
                Edit::ReplaceAll { path, search, replace } => search@.len() == 0 && invalid(res, "Search string cannot be empty"@)
                    || search@.len() > 0 && count_from(c, search@, 0) == 0 && search_missing(res, path@, c, search@)
                    || search@.len() > 0 && count_from(c, search@, 0) > 0 && writes(res, replace_all_spec(c, search@, replace@), msg_replaced_n(count_from(c, search@, 0))),
                Edit::InsertAfter { path, anchor, content } => insert_after_done(res, path@, c, anchor@, content@),
                Edit::InsertBefore { path, anchor, content } => insert_before_done(res, path@, c, anchor@, content@),
                Edit::InsertAtLine { path, line, content } => insert_at_done(res, path@, c, line, content@),
                Edit::DeleteLines { path, start_line, end_line } => delete_lines_done(res, path@, c, start_line, end_line),
                Edit::DeleteMatch { search, .. } => delete_match_done(res, c, search@),
                Edit::Append { content, .. } => writes(res, joined(c, content@), "Appended "@ + dec(lines_of(content@).len()) + " line(s)"@),
                Edit::Prepend { content, .. } => writes(res, joined(content@, c), "Prepended "@ + dec(lines_of(content@).len()) + " line(s)"@),
                _ => false,
            },
        },
    }
}

/// `o` reports edit `index` of kind `kind` on `path` whose result was `res`;
/// a success message is followed by `suffix`.
pub open spec fn reports(o: EditOutcome, index: usize, path: Seq<char>, kind: Seq<char>, res: Result<Applied, EditError>, suffix: Seq<char>) -> bool {
    match res {
        Ok(a) => match a.warning {
            Some(w) => match o {
                EditOutcome::Warning { index: i, path: p, edit_type: t, warning, message } => i == index && p@ == path
                    && t@ == kind && warning@ == w@ && message@ == a.message@ + suffix,
                _ => false,
            },
            None => match o {
                EditOutcome::Success { index: i, path: p, edit_type: t, lines_affected, message } => i == index
                    && p@ == path && t@ == kind && lines_affected is None && message is Some && message->0@
                    == a.message@ + suffix,
                _ => false,
            },
        },
        Err(e) => reports_error(o, index, path, kind, e),
    }
}

/// `o` is what edit `e`, as edit `index`, gives on a file holding `f`; a
/// success message is followed by `suffix`.
pub open spec fn outcome_of(o: EditOutcome, index: usize, e: Edit, f: FileModel, suffix: Seq<char>) -> bool {
    exists|res: Result<Applied, EditError>| #[trigger] edit_done(e, f, res) && reports(o, index, e.target(), e.kind(), res, suffix)
}

impl Edit {
    /// Carries out this edit on a file holding `state`, without touching it.
    pub fn apply_inner(&self, state: &FileState) -> (res: Result<Applied, EditError>)
        ensures
            edit_done(*self, state.model(), res),
            res is Ok == succeeds_on(*self, state.model()),
            res matches Ok(a) ==> effect_on(a.effect, state.model()) == after(*self, state.model()),
    {
        match self {
            Edit::Create { path, content } => return apply_create(path.as_str(), content.as_str()),
            Edit::DeleteFile { path } => {
                let exists = !matches!(state, FileState::Missing);
                return apply_delete_file(path.as_str(), exists);
            },
            _ => {},
        }
        let content = match state {
            FileState::Missing => {
                return Err(EditError::FileNotFound { path: self.path().to_owned() });
            },
            FileState::Unreadable(reason) => {
                return Err(EditError::ReadError { path: self.path().to_owned(), reason: reason.clone() });
            },
            FileState::Text(c) => c.as_str(),
        };
        match self {
            Edit::Replace { path, search, replace } => apply_replace(path.as_str(), content, search.as_str(), replace.as_str()),
            Edit::ReplaceAll { path, search, replace } => apply_replace_all(path.as_str(), content, search.as_str(), replace.as_str()),
            Edit::InsertAfter { path, anchor, content: new } => apply_insert_after(path.as_str(), content, anchor.as_str(), new.as_str()),
            Edit::InsertBefore { path, anchor, content: new } => apply_insert_before(path.as_str(), content, anchor.as_str(), new.as_str()),
            Edit::InsertAtLine { path, line, content: new } => apply_insert_at_line(path.as_str(), content, *line, new.as_str()),
            Edit::DeleteLines { path, start_line, end_line } => apply_delete_lines(path.as_str(), content, *start_line, *end_line),
            Edit::DeleteMatch { path, search } => apply_delete_match(path.as_str(), content, search.as_str()),
            Edit::Append { path, content: new } => apply_append(path.as_str(), content, new.as_str()),
            Edit::Prepend { path, content: new } => apply_prepend(path.as_str(), content, new.as_str()),
            Edit::Create { .. } => apply_create(self.path(), content),
            Edit::DeleteFile { .. } => apply_delete_file(self.path(), true),
        }
    }

    /// Applies this edit to `ws` and reports what became of it as edit `index`.
    /// A failed edit leaves `ws` as it was; only the edit's own path changes.
    pub fn apply(&self, ws: &mut Workspace, index: usize) -> (o: EditOutcome)
        requires
            old(ws).wf(),
        ensures
            final(ws).wf(),
            o.index_of() == index,
            o.path_of() == self.target(),
            o.kind_of() == self.kind(),
            o.succeeded() == succeeds_on(*self, old(ws).file(self.target())),
            final(ws).file(self.target()) == (if o.succeeded() {
                after(*self, old(ws).file(self.target()))
            } else {
                old(ws).file(self.target())
            }),
            forall|q: Seq<char>| q != self.target() ==> final(ws).file(q) == old(ws).file(q),
            outcome_of(o, index, *self, old(ws).file(self.target()), Seq::empty()),
    {
        let path = self.path();
        let kind = self.kind_name();
        let state = ws.get(path);
        let r = self.apply_inner(&state);
        let ghost rg = r;
        let o = match r {
            Ok(a) => {
                let Applied { effect, message, warning } = a;
                match effect {
                    Effect::Keep => {},
                    Effect::Write(t) => ws.set(path, FileState::Text(t)),
                    Effect::Remove => ws.set(path, FileState::Missing),
                }
                assert(message@ + Seq::<char>::empty() =~= message@);
                match warning {
                    Some(w) => EditOutcome::warning(index, path, kind, w.as_str(), message.as_str()),
                    None => EditOutcome::ok_with_details(index, path, kind, None, Some(message)),
                }
            },
            Err(e) => EditOutcome::from_error(index, path, kind, e),
        };
        assert(edit_done(*self, old(ws).file(self.target()), rg) && reports(o, index, self.target(), self.kind(), rg, Seq::empty()));
        o
    }
}

} // verus!
