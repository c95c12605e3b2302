//! The files a batch of edits works on, held in memory: each path is missing,
//! holds text, or could not be read as text.
use vstd::prelude::*;

verus! {

/// What a path holds.
#[derive(Debug, Clone)]
pub enum FileState {
    Missing,
    Text(String),
    /// The file exists but could not be read as text, for this reason.
    Unreadable(String),
}

/// What a path holds, as a value.
pub ghost enum FileModel {
    Missing,
    Text(Seq<char>),
    Unreadable(Seq<char>),
}

impl FileState {
    pub open spec fn model(&self) -> FileModel {
        match self {
            FileState::Missing => FileModel::Missing,
            FileState::Text(s) => FileModel::Text(s@),
            FileState::Unreadable(s) => FileModel::Unreadable(s@),
        }
    }

    /// A copy of this state.
    pub fn duplicate(&self) -> (r: FileState)
        ensures
            r.model() == self.model(),
    {
        match self {
            FileState::Missing => FileState::Missing,
            FileState::Text(s) => FileState::Text(s.clone()),
            FileState::Unreadable(s) => FileState::Unreadable(s.clone()),
        }
    }
}

/// Index of the first of `keys` at or after `i` equal to `p`.
pub open spec fn key_from(keys: Seq<String>, p: Seq<char>, i: int) -> Option<int>
    decreases keys.len() - i,
{
    if i < 0 || i >= keys.len() {
        None
    } else if keys[i]@ == p {
        Some(i)
    } else {
        key_from(keys, p, i + 1)
    }
}

pub proof fn lemma_key_from(keys: Seq<String>, p: Seq<char>, i: int)
    requires
        0 <= i,
    ensures
        match key_from(keys, p, i) {
            Some(k) => i <= k < keys.len() && keys[k]@ == p && forall|j: int|
                i <= j < k ==> (#[trigger] keys[j])@ != p,
            None => forall|j: int| i <= j < keys.len() ==> (#[trigger] keys[j])@ != p,
        },
    decreases keys.len() - i,
{
    if i < keys.len() && keys[i]@ != p {
        lemma_key_from(keys, p, i + 1);
    }
}

/// Files by path. A path not listed is missing.
#[derive(Debug, Clone)]
pub struct Workspace {
    pub paths: Vec<String>,
    pub states: Vec<FileState>,
}

impl Workspace {
    /// Each path listed once, beside its state.
    pub open spec fn wf(&self) -> bool {
        &&& self.paths.len() == self.states.len()
        &&& forall|i: int, j: int| 0 <= i < j < self.paths.len() ==> (#[trigger] self.paths@[i])@ != (#[trigger] self.paths@[j])@
    }

    pub open spec fn has(&self, p: Seq<char>) -> bool {
        key_from(self.paths@, p, 0) is Some
    }

    /// What `p` holds.
    pub open spec fn file(&self, p: Seq<char>) -> FileModel {
        match key_from(self.paths@, p, 0) {
            Some(i) => self.states@[i].model(),
            None => FileModel::Missing,
        }
    }

    /// An empty workspace: every path missing.
    pub fn new() -> (r: Self)
        ensures
            r.wf(),
            forall|p: Seq<char>| !r.has(p) && r.file(p) == FileModel::Missing,
    {
        Workspace { paths: Vec::new(), states: Vec::new() }
    }

    fn find(&self, p: &str) -> (r: Option<usize>)
        requires
            self.paths.len() == self.states.len(),
        ensures
            match r {
                Some(k) => key_from(self.paths@, p@, 0) == Some(k as int),
                None => key_from(self.paths@, p@, 0) is None,
            },
            r matches Some(k) ==> k < self.paths.len(),
    {
        let mut i: usize = 0;
        while i < self.paths.len()
            invariant
                i <= self.paths.len(),
                key_from(self.paths@, p@, 0) == key_from(self.paths@, p@, i as int),
            decreases self.paths.len() - i,
        {
            let pc = crate::text::chars_of(p);
            let kc = crate::text::chars_of(self.paths[i].as_str());
            if crate::text::same_chars(&kc, &pc) {
                return Some(i);
            }
            i = i + 1;
        }
        None
    }

    /// A copy of what `p` holds.
    pub fn get(&self, p: &str) -> (r: FileState)
        requires
            self.paths.len() == self.states.len(),
        ensures
            r.model() == self.file(p@),
    {
        match self.find(p) {
            Some(i) => self.states[i].duplicate(),
            None => FileState::Missing,
        }
    }

    /// Whether `p` is listed.
    pub fn contains(&self, p: &str) -> (r: bool)
        requires
            self.paths.len() == self.states.len(),
        ensures
            r == self.has(p@),
    {
        self.find(p).is_some()
    }

    /// Makes `p` hold `s`; every other path keeps what it holds.
    pub fn set(&mut self, p: &str, s: FileState)
        requires
            old(self).wf(),
        ensures
            final(self).wf(),
            final(self).file(p@) == s.model(),
            final(self).has(p@),
            forall|q: Seq<char>| q != p@ ==> final(self).file(q) == old(self).file(q),
            forall|q: Seq<char>| q != p@ ==> final(self).has(q) == old(self).has(q),
    {
        proof {
            lemma_key_from(self.paths@, p@, 0);
        }
        match self.find(p) {
            Some(i) => {
                self.states.set(i, s);
                assert forall|q: Seq<char>| q != p@ implies self.file(q) == old(self).file(q) by {
                    lemma_key_from(self.paths@, q, 0);
                    if let Some(k) = key_from(self.paths@, q, 0) {
                        assert(k != i);
                    }
                }
            },
            None => {
                let ghost old_paths = self.paths@;
                self.paths.push(p.to_owned());
                self.states.push(s);
                proof {
                    lemma_key_from(self.paths@, p@, 0);
                    lemma_key_from(old_paths, p@, 0);
                    assert(self.paths@[old_paths.len() as int]@ == p@);
                    if let Some(k) = key_from(self.paths@, p@, 0) {
                        if k < old_paths.len() {
                            assert(self.paths@[k] == old_paths[k]);
                        }
                    }
                    assert forall|q: Seq<char>| q != p@ implies self.file(q) == old(self).file(q)
                        && self.has(q) == old(self).has(q) by {
                        lemma_key_from(self.paths@, q, 0);
                        lemma_key_from(old_paths, q, 0);
                        if let Some(k) = key_from(old_paths, q, 0) {
                            assert(self.paths@[k] == old_paths[k]);
                            assert(forall|j: int| 0 <= j < k ==> self.paths@[j] == old_paths[j]);
                        }
                        if let Some(k) = key_from(self.paths@, q, 0) {
                            assert(k < old_paths.len());
                            assert(self.paths@[k] == old_paths[k]);
                        }
                    }
                    assert forall|i: int, j: int| 0 <= i < j < self.paths.len() implies (#[trigger] self.paths@[i])@ != (#[trigger] self.paths@[j])@ by {
                        if j == old_paths.len() {
                            assert(self.paths@[i] == old_paths[i]);
                        } else {
                            assert(self.paths@[i] == old_paths[i]);
                            assert(self.paths@[j] == old_paths[j]);
                        }
                    }
                }
            },
        }
    }
}

} // verus!
