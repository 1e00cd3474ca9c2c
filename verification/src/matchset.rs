use vstd::prelude::*;

use crate::filemap::FileMap;
use crate::mtime::ModTime;

verus! {

/// The files one formatter currently matches, with the mtime each had when
/// it was observed.
pub struct FmtFiles {
    pub name: String,
    pub files: FileMap,
}

/// The full set of (formatter, file, mtime) triples of one run: what the
/// tree walk discovered, and later the subset that still needs processing.
/// One file may appear under several formatters (fan-out is allowed).
pub struct MatchSet {
    pub sets: Vec<FmtFiles>,
}

pub open spec fn ms_names_unique(s: Seq<FmtFiles>) -> bool {
    forall|i: int, j: int|
        0 <= i < j < s.len() ==> (#[trigger] s[i].name@) != (#[trigger] s[j].name@)
}

pub open spec fn ms_has(s: Seq<FmtFiles>, n: Seq<char>) -> bool {
    exists|i: int| 0 <= i < s.len() && (#[trigger] s[i].name@) == n
}

pub open spec fn ms_files(s: Seq<FmtFiles>, n: Seq<char>) -> Map<Seq<char>, ModTime> {
    let i = choose|i: int| 0 <= i < s.len() && (#[trigger] s[i].name@) == n;
    s[i].files@
}

/// Under distinct names, the set at any index is what the match set
/// records for that formatter.
pub proof fn lemma_ms_at(s: Seq<FmtFiles>, idx: int)
    requires
        ms_names_unique(s),
        0 <= idx < s.len(),
    ensures
        ms_has(s, s[idx].name@),
        ms_files(s, s[idx].name@) == s[idx].files@,
{
    let n = s[idx].name@;
    assert(0 <= idx < s.len() && s[idx].name@ == n);
    assert(ms_has(s, n));
    let i = choose|i: int| 0 <= i < s.len() && (#[trigger] s[i].name@) == n;
    if i != idx {
        assert(s[i].name@ != s[idx].name@);
        assert(false);
    }
}

impl MatchSet {
    /// Well-formed: formatter names are pairwise distinct and every file
    /// map is well-formed.
    pub open spec fn wf(&self) -> bool {
        &&& ms_names_unique(self.sets@)
        &&& forall|k: int| 0 <= k < self.sets@.len() ==> (#[trigger] self.sets@[k].files).wf()
    }

    /// An empty match set with one (empty) batch per formatter name.
    pub fn new_for(names: &Vec<String>) -> (r: MatchSet)
        requires
            forall|i: int, j: int|
                0 <= i < j < names@.len() ==> (#[trigger] names@[i]@) != (#[trigger] names@[j]@),
        ensures
            r.wf(),
            r.sets@.len() == names@.len(),
            forall|k: int| 0 <= k < names@.len() ==> (#[trigger] r.sets@[k].name@) == names@[k]@,
            forall|k: int|
                0 <= k < names@.len() ==> (#[trigger] r.sets@[k].files@) == Map::<
                    Seq<char>,
                    ModTime,
                >::empty(),
    {
        let mut sets: Vec<FmtFiles> = Vec::new();
        let n = names.len();
        let mut i: usize = 0;
        while i < n
            invariant
                n == names@.len(),
                i <= n,
                sets@.len() == i,
                forall|k: int| 0 <= k < i ==> (#[trigger] sets@[k].name@) == names@[k]@,
                forall|k: int| 0 <= k < i ==> (#[trigger] sets@[k].files).wf(),
                forall|k: int|
                    0 <= k < i ==> (#[trigger] sets@[k].files@) == Map::<
                        Seq<char>,
                        ModTime,
                    >::empty(),
            decreases n - i,
        {
            sets.push(FmtFiles { name: names[i].clone(), files: FileMap::new() });
            i += 1;
        }
        let r = MatchSet { sets };
        proof {
            assert forall|i0: int, j0: int| 0 <= i0 < j0 < r.sets@.len() implies (
            #[trigger] r.sets@[i0].name@) != (#[trigger] r.sets@[j0].name@) by {
                assert(names@[i0]@ != names@[j0]@);
            }
        }
        r
    }

    /// The position of a formatter's set, if the name is present.
    pub fn find_set(&self, n: &String) -> (r: Option<usize>)
        ensures
            match r {
                Some(i) => i < self.sets@.len() && self.sets@[i as int].name@ == n@,
                None => !ms_has(self.sets@, n@),
            },
    {
        let len = self.sets.len();
        let mut i: usize = 0;
        while i < len
            invariant
                len == self.sets@.len(),
                i <= len,
                forall|j: int| 0 <= j < i ==> (#[trigger] self.sets@[j].name@) != n@,
            decreases len - i,
        {
            if self.sets[i].name == *n {
                return Some(i);
            }
            i += 1;
        }
        None
    }
}

} // verus!
