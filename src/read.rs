//! File contents shown with line numbers, for people and for prompts.
use vstd::prelude::*;
use crate::matcher::ends_nl;
use crate::text::{
    chars_of, dec, join_nl, join_range, lines_of, push_all, push_dec, push_repeat, push_str_chars,
    spaces, split_lines, string_of, views,
};
use crate::workspace::{FileModel, FileState, Workspace};

verus! {

/// `s` right-aligned in a field of `w` characters.
pub open spec fn pad_left(s: Seq<char>, w: nat) -> Seq<char> {
    if s.len() < w {
        spaces((w - s.len()) as nat) + s
    } else {
        s
    }
}

/// The first `k` lines of `ls`, each as `number | text` and a newline.
pub open spec fn numbered(ls: Seq<Seq<char>>, w: nat, k: nat) -> Seq<char>
    decreases k,
{
    if k == 0 {
        Seq::empty()
    } else {
        numbered(ls, w, (k - 1) as nat) + pad_left(dec(k), w) + " | "@ + ls[k - 1] + "\n"@
    }
}

pub open spec fn min_of(a: nat, b: nat) -> nat {
    if a <= b {
        a
    } else {
        b
    }
}

/// The lines of `c`, at most `max` of them, numbered and aligned; a note
/// says how many more there are.
pub open spec fn numbered_text(c: Seq<char>, max: nat) -> Seq<char> {
    let ls = lines_of(c);
    let total = min_of(ls.len(), max);
    let w = if total == 0 {
        1
    } else {
        dec(total).len()
    };
    let body = numbered(ls, w, total) + if ls.len() > max {
        pad_left("..."@, w) + " | ... ("@ + dec((ls.len() - max) as nat) + " more lines)\n"@
    } else {
        Seq::empty()
    };
    if !ends_nl(c) && ends_nl(body) {
        body.drop_last()
    } else {
        body
    }
}

fn push_padded(out: &mut Vec<char>, s: &Vec<char>, w: usize)
    ensures
        final(out)@ == old(out)@ + pad_left(s@, w as nat),
{
    if s.len() < w {
        push_repeat(out, ' ', w - s.len());
    }
    push_all(out, s);
    assert(final(out)@ =~= old(out)@ + pad_left(s@, w as nat));
}

fn dec_chars(n: usize) -> (r: Vec<char>)
    ensures
        r@ == dec(n as nat),
{
    let mut v: Vec<char> = Vec::new();
    push_dec(&mut v, n);
    assert(v@ =~= dec(n as nat));
    v
}

/// Numbers the lines of `content`, showing at most `max_lines` of them.
pub fn add_line_numbers(content: &str, max_lines: usize) -> (r: String)
    ensures
        r@ == numbered_text(content@, max_lines as nat),
{
    let c = chars_of(content);
    let ls = split_lines(&c);
    let total: usize = if ls.len() <= max_lines { ls.len() } else { max_lines };
    let w: usize = if total == 0 { 1 } else { dec_chars(total).len() };
    let ghost lv = views(ls@);
    let mut out: Vec<char> = Vec::new();
    let mut i: usize = 0;
    while i < total
        invariant
            total <= ls.len(),
            lv == views(ls@),
            i <= total,
            out@ == numbered(lv, w as nat, i as nat),
        decreases total - i,
    {
        let num = dec_chars(i + 1);
        push_padded(&mut out, &num, w);
        push_str_chars(&mut out, " | ");
        push_all(&mut out, &ls[i]);
        push_str_chars(&mut out, "\n");
        i = i + 1;
    }
    if ls.len() > max_lines {
        let dots = chars_of("...");
        push_padded(&mut out, &dots, w);
        push_str_chars(&mut out, " | ... (");
        push_dec(&mut out, ls.len() - max_lines);
        push_str_chars(&mut out, " more lines)\n");
    }
    let ends = c.len() > 0 && c[c.len() - 1] == '\n';
    if !ends && out.len() > 0 && out[out.len() - 1] == '\n' {
        out.pop();
    }
    proof {
        let body = numbered(lv, w as nat, total as nat) + if lv.len() > max_lines {
            pad_left("..."@, w as nat) + " | ... ("@ + dec((lv.len() - max_lines) as nat) + " more lines)\n"@
        } else {
            Seq::empty()
        };
        assert(!ends_nl(c@) && ends_nl(body) ==> out@ =~= body.drop_last());
    }
    string_of(&out)
}

/// A file as read for display.
#[derive(Debug)]
pub struct FileReadResult {
    pub path: String,
    pub exists: bool,
    pub lines: Option<usize>,
    pub bytes: Option<usize>,
    pub truncated: Option<bool>,
    pub content: Option<String>,
    pub content_with_line_numbers: Option<String>,
    pub error: Option<String>,
}

/// Several files as read for display.
#[derive(Debug)]
pub struct MultiFileReadResult {
    pub files: Vec<FileReadResult>,
}

/// `r` describes `path` holding `state`, showing at most `max` lines.
pub open spec fn read_as(r: FileReadResult, path: Seq<char>, state: FileModel, max: nat) -> bool {
    &&& r.path@ == path
    &&& match state {
        FileModel::Missing => !r.exists && r.lines is None && r.bytes is None && r.truncated is None
            && r.content is None && r.content_with_line_numbers is None && r.error is None,
        FileModel::Unreadable(why) => r.exists && r.lines is None && r.bytes is None && r.truncated is None
            && r.content is None && r.content_with_line_numbers is None && r.error is Some && r.error->0@ == why,
        FileModel::Text(c) => {
            let ls = lines_of(c);
            &&& r.exists
            &&& r.lines == Some(ls.len() as usize)
            &&& r.bytes == Some(vstd::utf8::encode_utf8(c).len() as usize)
            &&& r.truncated == Some(ls.len() > max)
            &&& r.content is Some && r.content->0@ == join_nl(ls.take(min_of(ls.len(), max) as int))
            &&& r.content_with_line_numbers is Some && r.content_with_line_numbers->0@ == numbered_text(c, max)
            &&& r.error is None
        },
    }
}

/// Describes `path` holding `state`, showing at most `max_lines` lines (500 when not given).
pub fn read_file_with_line_numbers(path: &str, state: FileState, max_lines: Option<usize>) -> (r: FileReadResult)
    ensures
        read_as(r, path@, state.model(), match max_lines { Some(m) => m as nat, None => 500 }),
{
    match state {
        FileState::Missing => FileReadResult {
            path: path.to_owned(),
            exists: false,
            lines: None,
            bytes: None,
            truncated: None,
            content: None,
            content_with_line_numbers: None,
            error: None,
        },
        FileState::Unreadable(why) => FileReadResult {
            path: path.to_owned(),
            exists: true,
            lines: None,
            bytes: None,
            truncated: None,
            content: None,
            content_with_line_numbers: None,
            error: Some(why),
        },
        FileState::Text(text) => {
            let max: usize = match max_lines {
                Some(m) => m,
                None => 500,
            };
            let c = chars_of(text.as_str());
            let ls = split_lines(&c);
            let total = ls.len();
            let bytes = text.as_str().len();
            let shown: usize = if total <= max { total } else { max };
            let raw = join_range(&ls, 0, shown);
            assert(views(ls@).subrange(0, shown as int) =~= views(ls@).take(shown as int));
            let numbered = add_line_numbers(text.as_str(), max);
            FileReadResult {
                path: path.to_owned(),
                exists: true,
                lines: Some(total),
                bytes: Some(bytes),
                truncated: Some(total > max),
                content: Some(string_of(&raw)),
                content_with_line_numbers: Some(numbered),
                error: None,
            }
        },
    }
}

/// Describes each of `paths` as `workspace` holds it.
pub fn read_files_with_line_numbers(workspace: &Workspace, paths: &Vec<String>, max_lines: Option<usize>) -> (r: MultiFileReadResult)
    requires
        workspace.wf(),
    ensures
        r.files.len() == paths.len(),
        forall|i: int| 0 <= i < paths.len() ==> read_as(#[trigger] r.files@[i], paths@[i]@, workspace.file(paths@[i]@), match max_lines { Some(m) => m as nat, None => 500 }),
{
    let mut files: Vec<FileReadResult> = Vec::new();
    let mut i: usize = 0;
    while i < paths.len()
        invariant
            workspace.wf(),
            i <= paths.len(),
            files.len() == i,
            forall|j: int| 0 <= j < i ==> read_as(#[trigger] files@[j], paths@[j]@, workspace.file(paths@[j]@), match max_lines { Some(m) => m as nat, None => 500 }),
        decreases paths.len() - i,
    {
        let state = workspace.get(paths[i].as_str());
        let f = read_file_with_line_numbers(paths[i].as_str(), state, max_lines);
        files.push(f);
        i = i + 1;
    }
    MultiFileReadResult { files }
}

} // verus!

verus! {

/// The extension of a path's file name, as `Path::extension` finds it; empty
/// when there is none.
pub uninterp spec fn extension_of(p: Seq<char>) -> Seq<char>;

/// Relies on `std::path::Path::extension`: the file name's extension, read as
/// UTF-8; a path without one gives the empty string.
#[verifier::external_body]
fn path_extension(p: &str) -> (r: String)
    ensures
        r@ == extension_of(p@),
{
    std::path::Path::new(p).extension().and_then(|e| e.to_str()).unwrap_or("").to_owned()
}

/// One file's section of a prompt.
pub open spec fn file_section(f: FileReadResult) -> Seq<char> {
    if f.exists {
        let lines_info = match f.lines {
            Some(l) => dec(l as nat) + " lines"@,
            None => Seq::empty(),
        };
        let trunc = if f.truncated == Some(true) {
            " (truncated)"@
        } else {
            Seq::empty()
        };
        "### "@ + f.path@ + " ("@ + lines_info + trunc + ")\n\n"@ + match f.content_with_line_numbers {
            Some(c) => "```"@ + extension_of(f.path@) + "\n"@ + c@ + "\n```\n\n"@,
            None => match f.error {
                Some(e) => "*Error reading file: "@ + e@ + "*\n\n"@,
                None => Seq::empty(),
            },
        }
    } else {
        "### "@ + f.path@ + "\n\n*File does not exist - will be created*\n\n"@
    }
}

/// The sections of all files, in order.
pub open spec fn prompt_text(fs: Seq<FileReadResult>) -> Seq<char>
    decreases fs.len(),
{
    if fs.len() == 0 {
        Seq::empty()
    } else {
        prompt_text(fs.drop_last()) + file_section(fs.last())
    }
}

fn push_string(out: &mut Vec<char>, s: &String)
    ensures
        final(out)@ == old(out)@ + s@,
{
    push_str_chars(out, s.as_str());
}

/// Formats the files as markdown sections for a prompt.
pub fn format_for_prompt(results: &MultiFileReadResult) -> (r: String)
    ensures
        r@ == prompt_text(results.files@),
{
    let mut out: Vec<char> = Vec::new();
    let mut i: usize = 0;
    while i < results.files.len()
        invariant
            i <= results.files.len(),
            out@ == prompt_text(results.files@.take(i as int)),
        decreases results.files.len() - i,
    {
        let f = &results.files[i];
        let ghost before = out@;
        if f.exists {
            push_str_chars(&mut out, "### ");
            push_string(&mut out, &f.path);
            push_str_chars(&mut out, " (");
            if let Some(l) = f.lines {
                push_dec(&mut out, l);
                push_str_chars(&mut out, " lines");
            }
            if let Some(true) = f.truncated {
                push_str_chars(&mut out, " (truncated)");
            }
            push_str_chars(&mut out, ")\n\n");
            if let Some(c) = &f.content_with_line_numbers {
                let ext = path_extension(f.path.as_str());
                push_str_chars(&mut out, "```");
                push_string(&mut out, &ext);
                push_str_chars(&mut out, "\n");
                push_string(&mut out, c);
                push_str_chars(&mut out, "\n```\n\n");
            } else if let Some(e) = &f.error {
                push_str_chars(&mut out, "*Error reading file: ");
                push_string(&mut out, e);
                push_str_chars(&mut out, "*\n\n");
            }
        } else {
            push_str_chars(&mut out, "### ");
            push_string(&mut out, &f.path);
            push_str_chars(&mut out, "\n\n*File does not exist - will be created*\n\n");
        }
        proof {
            assert(results.files@.take(i + 1).drop_last() =~= results.files@.take(i as int));
            assert(out@ =~= before + file_section(results.files@[i as int]));
        }
        i = i + 1;
    }
    assert(results.files@.take(i as int) =~= results.files@);
    string_of(&out)
}

/// Shows a byte count for people: bytes below 1 KiB, then KiB below 1 MiB,
/// then MiB, with one decimal rounded half to even.
pub open spec fn bytes_text(bytes: nat) -> Seq<char> {
    if bytes < 1024 {
        dec(bytes) + " B"@
    } else if bytes < 1024 * 1024 {
        tenths(bytes, 1024) + " KB"@
    } else {
        tenths(bytes, 1024 * 1024) + " MB"@
    }
}

/// `n / d` in tenths, rounded half to even.
pub open spec fn tenths_value(n: nat, d: nat) -> nat {
    let q = (n * 10) / d;
    let r = (n * 10) % d;
    if 2 * r > d || (2 * r == d && q % 2 == 1) {
        q + 1
    } else {
        q
    }
}

pub open spec fn tenths(n: nat, d: nat) -> Seq<char> {
    let t = tenths_value(n, d);
    dec(t / 10) + "."@ + dec(t % 10)
}

/// A byte count as people read it.
pub fn format_bytes(bytes: usize) -> (r: String)
    ensures
        r@ == bytes_text(bytes as nat),
{
    let mut out: Vec<char> = Vec::new();
    if bytes < 1024 {
        push_dec(&mut out, bytes);
        push_str_chars(&mut out, " B");
        return string_of(&out);
    }
    let d: u128 = if bytes < 1024 * 1024 { 1024 } else { 1024 * 1024 };
    let n: u128 = (bytes as u128) * 10;
    let q: u128 = n / d;
    let r: u128 = n % d;
    let t: u128 = if 2 * r > d || (2 * r == d && q % 2 == 1) { q + 1 } else { q };
    assert(q <= n) by (nonlinear_arith)
        requires
            q == n / d,
            d > 0,
    ;
    assert(t <= 10 * usize::MAX + 1);
    push_dec(&mut out, (t / 10) as usize);
    push_str_chars(&mut out, ".");
    push_dec(&mut out, (t % 10) as usize);
    if bytes < 1024 * 1024 {
        push_str_chars(&mut out, " KB");
    } else {
        push_str_chars(&mut out, " MB");
    }
    string_of(&out)
}

} // verus!
