//! Batches of edits applied in order, atomically (any failure restores every
//! touched file), partially (failures are tallied and skipped), or as a dry
//! run that changes nothing.
use vstd::prelude::*;
use crate::edits::{after, edit_done, outcome_of, reports, succeeds_on, Applied, Edit};
use crate::outcome::{ApplyResult, EditOutcome};
use crate::text::{chars_of, push_all, push_str_chars, string_of};
use crate::workspace::{FileModel, FileState, Workspace};

verus! {

/// Contents of every path.
pub type Files = spec_fn(Seq<char>) -> FileModel;

/// What `p` holds once each of `es` has been tried in turn on files `m`,
/// failed edits skipped.
pub open spec fn run_at(m: Files, es: Seq<Edit>, p: Seq<char>) -> FileModel
    decreases es.len(),
{
    if es.len() == 0 {
        m(p)
    } else {
        let e = es.last();
        let prev = run_at(m, es.drop_last(), p);
        if p == e.target() && succeeds_on(e, prev) {
            after(e, prev)
        } else {
            prev
        }
    }
}

/// What `p` holds once `e` has been tried on a file holding `f`.
pub open spec fn step_at(f: FileModel, e: Edit, p: Seq<char>) -> FileModel {
    if p == e.target() && succeeds_on(e, f) {
        after(e, f)
    } else {
        f
    }
}

/// What the target of edit `j` holds when it is tried: the files as they are
/// in a dry run, else once the edits before it have been tried.
pub open spec fn before_edit(ws: Workspace, es: Seq<Edit>, j: int, dry_run: bool) -> FileModel {
    if dry_run {
        ws.file(es[j].target())
    } else {
        run_at(files_of(ws), es.take(j), es[j].target())
    }
}

/// The note a dry run adds to each success message.
pub open spec fn dry_note(dry_run: bool) -> Seq<char> {
    if dry_run {
        " (dry-run)"@
    } else {
        Seq::empty()
    }
}

pub open spec fn files_of(ws: Workspace) -> Files {
    |q: Seq<char>| ws.file(q)
}

/// Backs up each file on first touch so the whole batch can be undone.
pub struct EditTransaction {
    workspace: Workspace,
    backups: Workspace,
    initial: Ghost<Files>,
}

impl EditTransaction {
    /// Every file is either backed up with its first state or still in it.
    pub closed spec fn inv(&self) -> bool {
        &&& self.workspace.wf()
        &&& self.backups.wf()
        &&& forall|p: Seq<char>| self.backups.has(p) ==> self.backups.file(p) == (self.initial@)(p)
        &&& forall|p: Seq<char>| !self.backups.has(p) ==> self.workspace.file(p) == (self.initial@)(p)
    }

    /// `p` has been backed up.
    pub closed spec fn backed_up(&self, p: Seq<char>) -> bool {
        self.backups.has(p)
    }

    /// The files when the transaction began.
    pub closed spec fn start(&self) -> Files {
        self.initial@
    }

    /// What `p` held when the transaction began.
    pub closed spec fn start_file(&self, p: Seq<char>) -> FileModel {
        (self.initial@)(p)
    }

    pub proof fn lemma_start_file(&self, p: Seq<char>)
        ensures
            self.start_file(p) == (self.start())(p),
    {
    }

    /// What `p` holds now.
    pub closed spec fn now_file(&self, p: Seq<char>) -> FileModel {
        self.workspace.file(p)
    }

    /// Begins a transaction over `workspace`.
    pub fn begin(workspace: Workspace) -> (r: Self)
        requires
            workspace.wf(),
        ensures
            r.inv(),
            r.start() == files_of(workspace),
            forall|p: Seq<char>| r.now_file(p) == workspace.file(p),
    {
        let ghost initial = files_of(workspace);
        EditTransaction { workspace, backups: Workspace::new(), initial: Ghost(initial) }
    }

    /// Records what `rel_path` holds, unless it was recorded before.
    pub fn backup_file(&mut self, rel_path: &str)
        requires
            old(self).inv(),
        ensures
            final(self).inv(),
            final(self).start() == old(self).start(),
            forall|p: Seq<char>| final(self).now_file(p) == old(self).now_file(p),
            final(self).backed_up(rel_path@),
            forall|p: Seq<char>| old(self).backed_up(p) ==> final(self).backed_up(p),
    {
        if self.backups.contains(rel_path) {
            return;
        }
        let state = self.workspace.get(rel_path);
        self.backups.set(rel_path, state);
    }

    /// Applies `edit` as edit `index`, or, in a dry run, only judges it.
    pub fn apply_edit(&mut self, edit: &Edit, index: usize, dry_run: bool) -> (o: EditOutcome)
        requires
            old(self).inv(),
        ensures
            final(self).inv(),
            final(self).start() == old(self).start(),
            o.index_of() == index,
            o.path_of() == edit.target(),
            o.succeeded() == succeeds_on(*edit, old(self).now_file(edit.target())),
            outcome_of(o, index, *edit, old(self).now_file(edit.target()), if dry_run { " (dry-run)"@ } else { Seq::empty() }),
            !dry_run ==> final(self).backed_up(edit.target()),
            forall|p: Seq<char>| old(self).backed_up(p) ==> final(self).backed_up(p),
            dry_run ==> forall|p: Seq<char>| final(self).backed_up(p) == old(self).backed_up(p),
            dry_run ==> forall|p: Seq<char>| final(self).now_file(p) == old(self).now_file(p),
            !dry_run ==> forall|p: Seq<char>| final(self).now_file(p) == step_at(old(self).now_file(p), *edit, p),
    {
        if dry_run {
            return self.simulate_edit(edit, index);
        }
        self.backup_file(edit.path());
        let ghost before = self.workspace;
        let o = edit.apply(&mut self.workspace, index);
        proof {
            assert forall|p: Seq<char>| !self.backups.has(p) implies self.workspace.file(p) == (self.initial@)(p) by {
                assert(p != edit.target());
            }
            assert forall|p: Seq<char>| self.now_file(p) == step_at(before.file(p), *edit, p) by {
            }
        }
        o
    }

    /// Judges `edit` against the files as they are, changing nothing; a
    /// success says "(dry-run)" at the end of its message.
    pub fn simulate_edit(&self, edit: &Edit, index: usize) -> (o: EditOutcome)
        requires
            self.inv(),
        ensures
            o.index_of() == index,
            o.path_of() == edit.target(),
            o.succeeded() == succeeds_on(*edit, self.now_file(edit.target())),
            outcome_of(o, index, *edit, self.now_file(edit.target()), " (dry-run)"@),
    {
        simulate_edit(&self.workspace, edit, index)
    }

    /// Undoes every change: each backed-up path gets its first state back.
    pub fn rollback(self) -> (r: Workspace)
        requires
            self.inv(),
        ensures
            r.wf(),
            forall|p: Seq<char>| r.file(p) == self.start_file(p),
    {
        let EditTransaction { mut workspace, backups, initial } = self;
        let n = backups.paths.len();
        let mut i: usize = 0;
        while i < n
            invariant
                n == backups.paths.len(),
                backups.wf(),
                workspace.wf(),
                i <= n,
                forall|p: Seq<char>| backups.has(p) ==> backups.file(p) == (initial@)(p),
                forall|p: Seq<char>| !backups.has(p) ==> workspace.file(p) == (initial@)(p),
                forall|j: int| 0 <= j < i ==> workspace.file(#[trigger] backups.paths@[j]@) == (initial@)(backups.paths@[j]@),
            decreases n - i,
        {
            let state = backups.states[i].duplicate();
            proof {
                crate::workspace::lemma_key_from(backups.paths@, backups.paths@[i as int]@, 0);
                assert(backups.file(backups.paths@[i as int]@) == backups.states@[i as int].model());
            }
            let ghost prev = workspace;
            workspace.set(backups.paths[i].as_str(), state);
            proof {
                assert forall|j: int| 0 <= j < i + 1 implies workspace.file(#[trigger] backups.paths@[j]@) == (initial@)(backups.paths@[j]@) by {
                    if j < i {
                        assert(backups.paths@[j]@ != backups.paths@[i as int]@);
                    }
                }
            }
            i = i + 1;
        }
        proof {
            assert forall|p: Seq<char>| workspace.file(p) == (initial@)(p) by {
                if backups.has(p) {
                    crate::workspace::lemma_key_from(backups.paths@, p, 0);
                    let k = key_from_some(backups.paths@, p);
                    assert(workspace.file(backups.paths@[k]@) == (initial@)(backups.paths@[k]@));
                }
            }
        }
        workspace
    }

    /// Keeps every change.
    pub fn commit(self) -> (r: Workspace)
        requires
            self.inv(),
        ensures
            r.wf(),
            forall|p: Seq<char>| r.file(p) == self.now_file(p),
    {
        self.workspace
    }
}

spec fn key_from_some(keys: Seq<String>, p: Seq<char>) -> int {
    crate::workspace::key_from(keys, p, 0)->0
}

/// Judges `edit` against `ws` without changing it.
pub fn simulate_edit(ws: &Workspace, edit: &Edit, index: usize) -> (o: EditOutcome)
    requires
        ws.wf(),
    ensures
        o.index_of() == index,
        o.path_of() == edit.target(),
        o.kind_of() == edit.kind(),
        o.succeeded() == succeeds_on(*edit, ws.file(edit.target())),
        outcome_of(o, index, *edit, ws.file(edit.target()), " (dry-run)"@),
{
    let path = edit.path();
    let kind = edit.kind_name();
    let state = ws.get(path);
    let r = edit.apply_inner(&state);
    let ghost rg = r;
    let o = match r {
        Ok(a) => {
            let Applied { effect: _, message, warning } = a;
            let mut msg = chars_of(message.as_str());
            push_str_chars(&mut msg, " (dry-run)");
            let msg = string_of(&msg);
            match warning {
                Some(w) => EditOutcome::warning(index, path, kind, w.as_str(), msg.as_str()),
                None => EditOutcome::ok_with_details(index, path, kind, None, Some(msg)),
            }
        },
        Err(e) => EditOutcome::from_error(index, path, kind, e),
    };
    assert(edit_done(*edit, ws.file(edit.target()), rg) && reports(o, index, edit.target(), edit.kind(), rg, " (dry-run)"@));
    o
}

} // verus!

verus! {

/// Applies `edits` in order. Atomic mode (`partial` false) stops at the first
/// failure and restores every file; partial mode tries every edit; a dry run
/// judges every edit against the files as they are and changes nothing.
#[verifier::rlimit(60)]
pub fn apply_with_transaction(workspace: Workspace, edits: &Vec<Edit>, dry_run: bool, partial: bool) -> (r: (ApplyResult, Workspace))
    requires
        workspace.wf(),
    ensures
        r.0.consistent(),
        r.1.wf(),
        r.0.edits.len() <= edits.len(),
        partial || dry_run ==> r.0.edits.len() == edits.len(),
        r.0.success ==> r.0.edits.len() == edits.len(),
        forall|j: int| 0 <= j < r.0.edits.len() ==> (#[trigger] r.0.edits@[j]).index_of() == j,
        forall|j: int| 0 <= j < r.0.edits.len() ==> (#[trigger] r.0.edits@[j]).path_of() == edits@[j].target(),
        dry_run ==> forall|j: int| 0 <= j < r.0.edits.len() ==> (#[trigger] r.0.edits@[j]).succeeded()
            == succeeds_on(edits@[j], workspace.file(edits@[j].target())),
        !dry_run ==> forall|j: int| 0 <= j < r.0.edits.len() ==> (#[trigger] r.0.edits@[j]).succeeded()
            == succeeds_on(edits@[j], run_at(files_of(workspace), edits@.take(j), edits@[j].target())),
        dry_run ==> forall|p: Seq<char>| r.1.file(p) == workspace.file(p),
        !dry_run && !partial && !r.0.success ==> forall|p: Seq<char>| r.1.file(p) == workspace.file(p),
        !dry_run && (partial || r.0.success) ==> forall|p: Seq<char>| r.1.file(p) == run_at(files_of(workspace), edits@, p),
        forall|j: int| 0 <= j < r.0.edits.len() ==> outcome_of(#[trigger] r.0.edits@[j], j as usize, edits@[j], before_edit(workspace, edits@, j, dry_run), dry_note(dry_run)),
        !dry_run && !partial && !r.0.success ==> r.0.edits.len() > 0 && !r.0.edits@.last().succeeded()
            && forall|j: int| 0 <= j < r.0.edits.len() - 1 ==> (#[trigger] r.0.edits@[j]).succeeded(),
{
    let ghost initial = workspace;
    let mut result = ApplyResult::new();
    let mut transaction = EditTransaction::begin(workspace);
    let mut i: usize = 0;
    while i < edits.len()
        invariant
            initial == workspace,
            transaction.inv(),
            transaction.start() == files_of(initial),
            result.consistent(),
            result.success || partial || dry_run,
            i <= edits.len(),
            result.edits.len() == i,
            forall|j: int| 0 <= j < i ==> (#[trigger] result.edits@[j]).index_of() == j,
            forall|j: int| 0 <= j < i ==> (#[trigger] result.edits@[j]).path_of() == edits@[j].target(),
            forall|j: int| 0 <= j < i ==> outcome_of(#[trigger] result.edits@[j], j as usize, edits@[j], before_edit(initial, edits@, j, dry_run), dry_note(dry_run)),
            !dry_run && !partial ==> forall|j: int| 0 <= j < i ==> (#[trigger] result.edits@[j]).succeeded(),
            dry_run ==> forall|p: Seq<char>| transaction.now_file(p) == initial.file(p),
            dry_run ==> forall|j: int| 0 <= j < i ==> (#[trigger] result.edits@[j]).succeeded()
                == succeeds_on(edits@[j], initial.file(edits@[j].target())),
            !dry_run ==> forall|p: Seq<char>| transaction.now_file(p) == run_at(files_of(initial), edits@.take(i as int), p),
            !dry_run ==> forall|j: int| 0 <= j < i ==> (#[trigger] result.edits@[j]).succeeded()
                == succeeds_on(edits@[j], run_at(files_of(initial), edits@.take(j), edits@[j].target())),
        decreases edits.len() - i,
    {
        let ghost before = transaction;
        let outcome = transaction.apply_edit(&edits[i], i, dry_run);
        let is_success = outcome.is_success();
        let ghost old_edits = result.edits@;
        result.add_outcome(outcome);
        proof {
            assert(edits@.take(i + 1).drop_last() =~= edits@.take(i as int));
            assert(result.edits@[i as int] == outcome);
            assert forall|j: int| 0 <= j < i implies result.edits@[j] == old_edits[j] by {}
            if !dry_run {
                assert(outcome.succeeded() == succeeds_on(edits@[i as int], run_at(files_of(initial), edits@.take(i as int), edits@[i as int].target())));
                assert forall|p: Seq<char>| transaction.now_file(p) == run_at(files_of(initial), edits@.take(i + 1), p) by {
                    assert(edits@.take(i + 1).last() == edits@[i as int]);
                }
            }
        }
        if !is_success && !partial && !dry_run {
            proof {
                assert forall|j: int| 0 <= j < i + 1 implies (#[trigger] result.edits@[j]).succeeded()
                    == succeeds_on(edits@[j], run_at(files_of(initial), edits@.take(j), edits@[j].target())) by {
                }
                assert forall|p: Seq<char>| transaction.start_file(p) == initial.file(p) by {
                    transaction.lemma_start_file(p);
                }
            }
            let restored = transaction.rollback();
            assert(!result.success);
            return (result, restored);
        }
        i = i + 1;
    }
    assert(edits@.take(i as int) =~= edits@);
    (result, transaction.commit())
}

/// Applies `edits` with the chosen consistency and dry-run modes.
pub fn apply_edits_with_options(workspace: Workspace, edits: &Vec<Edit>, dry_run: bool, partial: bool) -> (r: (ApplyResult, Workspace))
    requires
        workspace.wf(),
    ensures
        r.0.consistent(),
        r.1.wf(),
        r.0.edits.len() <= edits.len(),
        partial || dry_run ==> r.0.edits.len() == edits.len(),
        r.0.success ==> r.0.edits.len() == edits.len(),
        forall|j: int| 0 <= j < r.0.edits.len() ==> (#[trigger] r.0.edits@[j]).index_of() == j,
        forall|j: int| 0 <= j < r.0.edits.len() ==> (#[trigger] r.0.edits@[j]).path_of() == edits@[j].target(),
        dry_run ==> forall|j: int| 0 <= j < r.0.edits.len() ==> (#[trigger] r.0.edits@[j]).succeeded()
            == succeeds_on(edits@[j], workspace.file(edits@[j].target())),
        !dry_run ==> forall|j: int| 0 <= j < r.0.edits.len() ==> (#[trigger] r.0.edits@[j]).succeeded()
            == succeeds_on(edits@[j], run_at(files_of(workspace), edits@.take(j), edits@[j].target())),
        dry_run ==> forall|p: Seq<char>| r.1.file(p) == workspace.file(p),
        !dry_run && !partial && !r.0.success ==> forall|p: Seq<char>| r.1.file(p) == workspace.file(p),
        !dry_run && (partial || r.0.success) ==> forall|p: Seq<char>| r.1.file(p) == run_at(files_of(workspace), edits@, p),
        forall|j: int| 0 <= j < r.0.edits.len() ==> outcome_of(#[trigger] r.0.edits@[j], j as usize, edits@[j], before_edit(workspace, edits@, j, dry_run), dry_note(dry_run)),
        !dry_run && !partial && !r.0.success ==> r.0.edits.len() > 0 && !r.0.edits@.last().succeeded()
            && forall|j: int| 0 <= j < r.0.edits.len() - 1 ==> (#[trigger] r.0.edits@[j]).succeeded(),
{
    apply_with_transaction(workspace, edits, dry_run, partial)
}

/// Applies `edits` atomically.
pub fn apply_edits(workspace: Workspace, edits: &Vec<Edit>) -> (r: (ApplyResult, Workspace))
    requires
        workspace.wf(),
    ensures
        r.0.consistent(),
        r.1.wf(),
        r.0.edits.len() <= edits.len(),
        r.0.success ==> r.0.edits.len() == edits.len(),
        forall|j: int| 0 <= j < r.0.edits.len() ==> (#[trigger] r.0.edits@[j]).index_of() == j,
        forall|j: int| 0 <= j < r.0.edits.len() ==> (#[trigger] r.0.edits@[j]).path_of() == edits@[j].target(),
        forall|j: int| 0 <= j < r.0.edits.len() ==> (#[trigger] r.0.edits@[j]).succeeded()
            == succeeds_on(edits@[j], run_at(files_of(workspace), edits@.take(j), edits@[j].target())),
        forall|j: int| 0 <= j < r.0.edits.len() ==> outcome_of(#[trigger] r.0.edits@[j], j as usize, edits@[j], before_edit(workspace, edits@, j, false), Seq::empty()),
        !r.0.success ==> r.0.edits.len() > 0 && !r.0.edits@.last().succeeded()
            && forall|j: int| 0 <= j < r.0.edits.len() - 1 ==> (#[trigger] r.0.edits@[j]).succeeded(),
        !r.0.success ==> forall|p: Seq<char>| r.1.file(p) == workspace.file(p),
        r.0.success ==> forall|p: Seq<char>| r.1.file(p) == run_at(files_of(workspace), edits@, p),
{
    apply_edits_with_options(workspace, edits, false, false)
}

} // verus!
