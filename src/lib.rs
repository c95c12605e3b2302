//! Applies targeted textual edits to files: literal, indentation-tolerant and
//! fuzzy matching, indentation styles, and batches that apply atomically.
use vstd::prelude::*;

pub mod autocorrect;
pub mod edits;
pub mod indent;
pub mod laws;
pub mod matcher;
pub mod outcome;
pub mod read;
pub mod similarity;
pub mod text;
pub mod transaction;
pub mod workspace;

pub use crate::edits::{Edit, EditRequest};
pub use crate::outcome::{ApplyResult, EditError, EditOutcome, EditResult};
pub use crate::read::{FileReadResult, MultiFileReadResult};
pub use crate::transaction::{apply_edits, apply_edits_with_options};
use crate::workspace::Workspace;

verus! {

fn same_path(a: &str, b: &str) -> (r: bool)
    ensures
        r == (a@ == b@),
{
    let x = crate::text::chars_of(a);
    let y = crate::text::chars_of(b);
    crate::text::same_chars(&x, &y)
}

/// Whether two of `edits` touch the same path, so that reading each file once
/// saves work.
pub fn should_use_batch_optimization(edits: &Vec<Edit>) -> (r: bool)
    ensures
        r == exists|i: int, j: int| 0 <= i < j < edits.len() && (#[trigger] edits@[i]).target() == (#[trigger] edits@[j]).target(),
{
    if edits.len() < 2 {
        return false;
    }
    let mut j: usize = 1;
    while j < edits.len()
        invariant
            1 <= j <= edits.len(),
            forall|a: int, b: int| 0 <= a < b < j ==> (#[trigger] edits@[a]).target() != (#[trigger] edits@[b]).target(),
        decreases edits.len() - j,
    {
        let mut i: usize = 0;
        while i < j
            invariant
                1 <= j < edits.len(),
                i <= j,
                forall|a: int| 0 <= a < i ==> (#[trigger] edits@[a]).target() != edits@[j as int].target(),
            decreases j - i,
        {
            if same_path(edits[i].path(), edits[j].path()) {
                return true;
            }
            i = i + 1;
        }
        j = j + 1;
    }
    false
}

/// Index `i` is listed in one of the groups.
pub open spec fn grouped(gs: Seq<(String, Vec<usize>)>, i: int) -> bool {
    exists|g: int, k: int| 0 <= g < gs.len() && 0 <= k < gs[g].1.len() && #[trigger] gs[g].1@[k] == i
}

/// The edits' paths, each once in order of first use, with the indices of the
/// edits that touch it, ascending.
pub fn group_edits_by_file(edits: &Vec<Edit>) -> (r: Vec<(String, Vec<usize>)>)
    ensures
        forall|g: int, h: int| 0 <= g < h < r.len() ==> (#[trigger] r@[g]).0@ != (#[trigger] r@[h]).0@,
        forall|g: int, k: int| 0 <= g < r.len() && 0 <= k < r@[g].1.len() ==> #[trigger] r@[g].1@[k] < edits.len()
            && edits@[r@[g].1@[k] as int].target() == r@[g].0@,
        forall|g: int, k: int, l: int| 0 <= g < r.len() && 0 <= k < l < r@[g].1.len() ==> #[trigger] r@[g].1@[k] < #[trigger] r@[g].1@[l],
        forall|i: int| 0 <= i < edits.len() ==> #[trigger] grouped(r@, i),
        forall|g: int| 0 <= g < r.len() ==> (#[trigger] r@[g]).1.len() > 0,
        forall|g: int, h: int| 0 <= g < h < r.len() ==> (#[trigger] r@[g]).1@[0] < (#[trigger] r@[h]).1@[0],
{
    let mut groups: Vec<(String, Vec<usize>)> = Vec::new();
    let mut i: usize = 0;
    while i < edits.len()
        invariant
            i <= edits.len(),
            forall|g: int, h: int| 0 <= g < h < groups.len() ==> (#[trigger] groups@[g]).0@ != (#[trigger] groups@[h]).0@,
            forall|g: int, k: int| 0 <= g < groups.len() && 0 <= k < groups@[g].1.len() ==> #[trigger] groups@[g].1@[k] < i
                && edits@[groups@[g].1@[k] as int].target() == groups@[g].0@,
            forall|g: int, k: int, l: int| 0 <= g < groups.len() && 0 <= k < l < groups@[g].1.len() ==> #[trigger] groups@[g].1@[k] < #[trigger] groups@[g].1@[l],
            forall|x: int| 0 <= x < i ==> #[trigger] grouped(groups@, x),
            forall|g: int| 0 <= g < groups.len() ==> (#[trigger] groups@[g]).1.len() > 0,
            forall|g: int, h: int| 0 <= g < h < groups.len() ==> (#[trigger] groups@[g]).1@[0] < (#[trigger] groups@[h]).1@[0],
        decreases edits.len() - i,
    {
        let p = edits[i].path();
        let mut g: usize = 0;
        while g < groups.len() && !same_path(groups[g].0.as_str(), p)
            invariant
                g <= groups.len(),
                forall|h: int| 0 <= h < g ==> (#[trigger] groups@[h]).0@ != p@,
            decreases groups.len() - g,
        {
            g = g + 1;
        }
        let ghost old_groups = groups@;
        if g == groups.len() {
            let mut v: Vec<usize> = Vec::new();
            v.push(i);
            groups.push((p.to_owned(), v));
            proof {
                assert forall|x: int| 0 <= x < i + 1 implies #[trigger] grouped(groups@, x) by {
                    if x < i {
                        assert(grouped(old_groups, x));
                        let (g2, k) = choose|g2: int, k: int| 0 <= g2 < old_groups.len() && 0 <= k < old_groups[g2].1.len() && #[trigger] old_groups[g2].1@[k] == x;
                        assert(groups@[g2] == old_groups[g2]);
                    } else {
                        assert(groups@[old_groups.len() as int].1@[0] == x);
                    }
                }
            }
        } else {
            let (name, mut v) = groups.remove(g);
            let ghost old_v = v@;
            v.push(i);
            groups.insert(g, (name, v));
            proof {
                assert forall|h: int| 0 <= h < groups.len() && h != g implies groups@[h] == old_groups[h] by {}
                assert(groups@[g as int].1@[0] == old_groups[g as int].1@[0]);
                assert forall|x: int| 0 <= x < i + 1 implies #[trigger] grouped(groups@, x) by {
                    if x < i {
                        assert(grouped(old_groups, x));
                        let (g2, k) = choose|g2: int, k: int| 0 <= g2 < old_groups.len() && 0 <= k < old_groups[g2].1.len() && #[trigger] old_groups[g2].1@[k] == x;
                        if g2 == g {
                            assert(groups@[g2].1@[k] == old_v[k]);
                        } else {
                            assert(groups@[g2] == old_groups[g2]);
                        }
                    } else {
                        assert(groups@[g as int].1@[old_v.len() as int] == x);
                    }
                }
            }
        }
        i = i + 1;
    }
    groups
}

/// Describes each of `paths` as `workspace` holds it.
pub fn read_files(workspace: &Workspace, paths: &Vec<String>, max_lines: Option<usize>) -> (r: MultiFileReadResult)
    requires
        workspace.wf(),
    ensures
        r.files.len() == paths.len(),
        forall|i: int| 0 <= i < paths.len() ==> crate::read::read_as(#[trigger] r.files@[i], paths@[i]@, workspace.file(paths@[i]@), match max_lines { Some(m) => m as nat, None => 500 }),
{
    crate::read::read_files_with_line_numbers(workspace, paths, max_lines)
}

/// Describes `path` as `workspace` holds it.
pub fn read_file(workspace: &Workspace, path: &str, max_lines: Option<usize>) -> (r: FileReadResult)
    requires
        workspace.wf(),
    ensures
        crate::read::read_as(r, path@, workspace.file(path@), match max_lines { Some(m) => m as nat, None => 500 }),
{
    let state = workspace.get(path);
    crate::read::read_file_with_line_numbers(path, state, max_lines)
}

/// Formats the files as markdown sections for a prompt.
pub fn format_files_for_prompt(results: &MultiFileReadResult) -> (r: String)
    ensures
        r@ == crate::read::prompt_text(results.files@),
{
    crate::read::format_for_prompt(results)
}

} // verus!
