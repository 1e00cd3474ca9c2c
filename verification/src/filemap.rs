use vstd::prelude::*;

use crate::mtime::ModTime;

verus! {

/// One file as observed by the tree walk or recorded in the cache:
/// its absolute path and its modification time.
pub struct FileEntry {
    pub path: String,
    pub mtime: ModTime,
}

/// A finite mapping from absolute file path to modification time, kept as
/// an association list whose paths are pairwise distinct.
pub struct FileMap {
    pub entries: Vec<FileEntry>,
}

pub open spec fn paths_unique(s: Seq<FileEntry>) -> bool {
    forall|i: int, j: int|
        0 <= i < j < s.len() ==> (#[trigger] s[i].path@) != (#[trigger] s[j].path@)
}

pub open spec fn seq_has_path(s: Seq<FileEntry>, p: Seq<char>) -> bool {
    exists|i: int| 0 <= i < s.len() && (#[trigger] s[i].path@) == p
}

pub open spec fn seq_mtime_of(s: Seq<FileEntry>, p: Seq<char>) -> ModTime {
    let i = choose|i: int| 0 <= i < s.len() && (#[trigger] s[i].path@) == p;
    s[i].mtime
}

/// The map an entry sequence stands for.
pub open spec fn map_of(s: Seq<FileEntry>) -> Map<Seq<char>, ModTime> {
    Map::new(|p: Seq<char>| seq_has_path(s, p), |p: Seq<char>| seq_mtime_of(s, p))
}

/// Under distinct paths, the entry at any index is what the map records
/// for that entry's path.
pub proof fn lemma_entry_in_map(s: Seq<FileEntry>, idx: int)
    requires
        paths_unique(s),
        0 <= idx < s.len(),
    ensures
        map_of(s).dom().contains(s[idx].path@),
        map_of(s)[s[idx].path@] == s[idx].mtime,
{
    let p = s[idx].path@;
    assert(0 <= idx < s.len() && s[idx].path@ == p);
    assert(seq_has_path(s, p));
    let i = choose|i: int| 0 <= i < s.len() && (#[trigger] s[i].path@) == p;
    if i != idx {
        assert(s[i].path@ != s[idx].path@);
        assert(false);
    }
}

/// Appending an entry for a fresh path adds exactly that binding.
pub proof fn lemma_map_of_push(s: Seq<FileEntry>, e: FileEntry)
    requires
        paths_unique(s),
        !seq_has_path(s, e.path@),
    ensures
        paths_unique(s.push(e)),
        map_of(s.push(e)) =~= map_of(s).insert(e.path@, e.mtime),
{
    let s1 = s.push(e);
    assert forall|i: int, j: int| 0 <= i < j < s1.len() implies (#[trigger] s1[i].path@)
        != (#[trigger] s1[j].path@) by {
        if j == s1.len() - 1 {
            assert(s1[i] == s[i]);
            if s1[i].path@ == e.path@ {
                assert(0 <= i < s.len() && s[i].path@ == e.path@);
                assert(seq_has_path(s, e.path@));
            }
        } else {
            assert(s1[i] == s[i] && s1[j] == s[j]);
        }
    }
    assert forall|q: Seq<char>| seq_has_path(s1, q) implies (q == e.path@ || seq_has_path(
        s,
        q,
    )) by {
        let i = choose|i: int| 0 <= i < s1.len() && (#[trigger] s1[i].path@) == q;
        if i < s.len() {
            assert(0 <= i < s.len() && s[i].path@ == q);
        }
    }
    assert forall|q: Seq<char>| q == e.path@ || seq_has_path(s, q) implies seq_has_path(
        s1,
        q,
    ) by {
        if q == e.path@ {
            assert(s1[s.len() as int].path@ == q);
        } else {
            let i = choose|i: int| 0 <= i < s.len() && (#[trigger] s[i].path@) == q;
            assert(s1[i].path@ == q);
        }
    }
    assert forall|q: Seq<char>| #[trigger] seq_has_path(s1, q) implies seq_mtime_of(s1, q) == (
    if q == e.path@ {
        e.mtime
    } else {
        seq_mtime_of(s, q)
    }) by {
        if q == e.path@ {
            lemma_entry_in_map(s1, s.len() as int);
        } else {
            let i = choose|i: int| 0 <= i < s.len() && (#[trigger] s[i].path@) == q;
            lemma_entry_in_map(s1, i);
            lemma_entry_in_map(s, i);
            assert(s1[i] == s[i]);
        }
    }
    assert(map_of(s1) =~= map_of(s).insert(e.path@, e.mtime));
}

/// Removing the entry at an index removes exactly that path's binding.
pub proof fn lemma_map_of_remove(s: Seq<FileEntry>, idx: int)
    requires
        paths_unique(s),
        0 <= idx < s.len(),
    ensures
        paths_unique(s.remove(idx)),
        !seq_has_path(s.remove(idx), s[idx].path@),
        map_of(s.remove(idx)) =~= map_of(s).remove(s[idx].path@),
{
    let s1 = s.remove(idx);
    s.remove_ensures(idx);
    assert forall|i: int, j: int| 0 <= i < j < s1.len() implies (#[trigger] s1[i].path@)
        != (#[trigger] s1[j].path@) by {
        let i0: int = if i < idx { i } else { i + 1 };
        let j0: int = if j < idx { j } else { j + 1 };
        assert(s1[i] == s[i0] && s1[j] == s[j0]);
        assert(s[i0].path@ != s[j0].path@);
    }
    assert forall|q: Seq<char>| seq_has_path(s1, q) implies (q != s[idx].path@ && seq_has_path(
        s,
        q,
    )) by {
        let i = choose|i: int| 0 <= i < s1.len() && (#[trigger] s1[i].path@) == q;
        let i0: int = if i < idx { i } else { i + 1 };
        assert(s1[i] == s[i0]);
        assert(0 <= i0 < s.len() && s[i0].path@ == q);
        if i0 != idx {
            assert(s[i0].path@ != s[idx].path@);
        }
    }
    assert forall|q: Seq<char>| q != s[idx].path@ && seq_has_path(s, q) implies seq_has_path(
        s1,
        q,
    ) by {
        let i0 = choose|i: int| 0 <= i < s.len() && (#[trigger] s[i].path@) == q;
        if i0 < idx {
            assert(s1[i0].path@ == q);
        } else {
            assert(i0 != idx);
            assert(s1[i0 - 1].path@ == q);
        }
    }
    assert forall|q: Seq<char>| #[trigger] seq_has_path(s1, q) implies seq_mtime_of(s1, q)
        == seq_mtime_of(s, q) by {
        let i = choose|i: int| 0 <= i < s1.len() && (#[trigger] s1[i].path@) == q;
        let i0: int = if i < idx { i } else { i + 1 };
        assert(s1[i] == s[i0]);
        lemma_entry_in_map(s1, i);
        lemma_entry_in_map(s, i0);
    }
    assert(map_of(s1) =~= map_of(s).remove(s[idx].path@));
}

/// Walking an entry sequence front to back builds its map one fresh
/// binding at a time.
pub proof fn lemma_map_of_take_step(s: Seq<FileEntry>, j: int)
    requires
        paths_unique(s),
        0 <= j < s.len(),
    ensures
        paths_unique(s.take(j)),
        !seq_has_path(s.take(j), s[j].path@),
        map_of(s.take(j + 1)) =~= map_of(s.take(j)).insert(s[j].path@, s[j].mtime),
{
    assert forall|a: int, b: int| 0 <= a < b < s.take(j).len() implies (
    #[trigger] s.take(j)[a].path@) != (#[trigger] s.take(j)[b].path@) by {
        assert(s.take(j)[a] == s[a] && s.take(j)[b] == s[b]);
        assert(s[a].path@ != s[b].path@);
    }
    if seq_has_path(s.take(j), s[j].path@) {
        let l = choose|l: int|
            0 <= l < s.take(j).len() && (#[trigger] s.take(j)[l].path@) == s[j].path@;
        assert(s[l].path@ == s[j].path@);
        assert(false);
    }
    assert(s.take(j + 1) =~= s.take(j).push(s[j]));
    lemma_map_of_push(s.take(j), s[j]);
}

impl View for FileMap {
    type V = Map<Seq<char>, ModTime>;

    open spec fn view(&self) -> Map<Seq<char>, ModTime> {
        map_of(self.entries@)
    }
}

impl FileMap {
    /// Well-formed: no path occurs twice.
    pub open spec fn wf(&self) -> bool {
        paths_unique(self.entries@)
    }

    pub fn new() -> (r: FileMap)
        ensures
            r.wf(),
            r@ == Map::<Seq<char>, ModTime>::empty(),
            r.entries@.len() == 0,
    {
        let r = FileMap { entries: Vec::new() };
        proof {
            assert(r@ =~= Map::<Seq<char>, ModTime>::empty());
        }
        r
    }

    pub fn len(&self) -> (r: usize)
        ensures
            r == self.entries@.len(),
    {
        self.entries.len()
    }

    pub fn is_empty(&self) -> (r: bool)
        ensures
            r == (self.entries@.len() == 0),
    {
        self.entries.len() == 0
    }

    fn find_idx(&self, p: &String) -> (r: Option<usize>)
        ensures
            match r {
                Some(i) => i < self.entries@.len() && self.entries@[i as int].path@ == p@,
                None => !seq_has_path(self.entries@, p@),
            },
    {
        let n = self.entries.len();
        let mut i: usize = 0;
        while i < n
            invariant
                n == self.entries@.len(),
                i <= n,
                forall|j: int| 0 <= j < i ==> (#[trigger] self.entries@[j].path@) != p@,
            decreases n - i,
        {
            if self.entries[i].path == *p {
                return Some(i);
            }
            i += 1;
        }
        None
    }

    /// The recorded modification time of a path, if the map holds one.
    pub fn get(&self, p: &String) -> (r: Option<ModTime>)
        requires
            self.wf(),
        ensures
            match r {
                Some(t) => self@.dom().contains(p@) && self@[p@] == t,
                None => !self@.dom().contains(p@),
            },
    {
        match self.find_idx(p) {
            Some(i) => {
                proof {
                    lemma_entry_in_map(self.entries@, i as int);
                }
                Some(self.entries[i].mtime)
            },
            None => None,
        }
    }

    pub fn contains(&self, p: &String) -> (r: bool)
        requires
            self.wf(),
        ensures
            r == self@.dom().contains(p@),
    {
        match self.get(p) {
            Some(_) => true,
            None => false,
        }
    }

    /// Add an entry for a path that is not yet present.
    pub fn push_new(&mut self, p: String, t: ModTime)
        requires
            old(self).wf(),
            !old(self)@.dom().contains(p@),
        ensures
            final(self).wf(),
            final(self)@ == old(self)@.insert(p@, t),
            final(self).entries@ == old(self).entries@.push((FileEntry { path: p, mtime: t })),
    {
        proof {
            lemma_map_of_push(self.entries@, (FileEntry { path: p, mtime: t }));
        }
        self.entries.push(FileEntry { path: p, mtime: t });
    }

    /// Record a modification time for a path, replacing any prior entry.
    pub fn set(&mut self, p: String, t: ModTime)
        requires
            old(self).wf(),
        ensures
            final(self).wf(),
            final(self)@ == old(self)@.insert(p@, t),
    {
        match self.find_idx(&p) {
            Some(i) => {
                proof {
                    lemma_map_of_remove(self.entries@, i as int);
                }
                let ghost removed_path = self.entries@[i as int].path@;
                self.entries.remove(i);
                proof {
                    assert(removed_path == p@);
                    lemma_map_of_push(self.entries@, (FileEntry { path: p, mtime: t }));
                }
                self.entries.push(FileEntry { path: p, mtime: t });
                proof {
                    assert(self@ =~= old(self)@.insert(p@, t));
                }
            },
            None => {
                proof {
                    lemma_map_of_push(self.entries@, (FileEntry { path: p, mtime: t }));
                }
                self.entries.push(FileEntry { path: p, mtime: t });
            },
        }
    }

    /// A fresh map holding the same entries.
    pub fn duplicate(&self) -> (r: FileMap)
        ensures
            r.entries@ == self.entries@,
    {
        let mut entries: Vec<FileEntry> = Vec::new();
        let n = self.entries.len();
        let mut i: usize = 0;
        while i < n
            invariant
                n == self.entries@.len(),
                i <= n,
                entries@.len() == i,
                forall|j: int| 0 <= j < i ==> entries@[j] == self.entries@[j],
            decreases n - i,
        {
            entries.push(FileEntry { path: self.entries[i].path.clone(), mtime: self.entries[i].mtime });
            i += 1;
        }
        proof {
            assert(entries@ =~= self.entries@);
        }
        FileMap { entries }
    }
}

} // verus!
