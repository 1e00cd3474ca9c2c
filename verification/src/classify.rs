use vstd::prelude::*;

use crate::filemap::FileMap;
use crate::matchset::{FmtFiles, MatchSet};
use crate::mtime::ModTime;

verus! {

/// How many formatters matched.
pub open spec fn count_true(s: Seq<bool>) -> int
    decreases s.len(),
{
    if s.len() == 0 {
        0int
    } else {
        count_true(s.drop_last()) + if s.last() {
            1int
        } else {
            0int
        }
    }
}

/// What the tree walk accumulates: how many non-directory entries were
/// traversed, how many (formatter, file) matches were seen, and per
/// formatter the matched files with their observed mtimes.
pub struct WalkState {
    pub traversed: u64,
    pub matched: u64,
    pub matches: MatchSet,
}

impl WalkState {
    pub open spec fn wf(&self) -> bool {
        self.matches.wf()
    }

    /// The state before any entry has been visited: one empty batch per
    /// configured formatter, in configuration order.
    pub fn new_for(names: &Vec<String>) -> (r: WalkState)
        requires
            forall|i: int, j: int|
                0 <= i < j < names@.len() ==> (#[trigger] names@[i]@) != (#[trigger] names@[j]@),
        ensures
            r.wf(),
            r.traversed == 0,
            r.matched == 0,
            r.matches.sets@.len() == names@.len(),
            forall|k: int|
                0 <= k < names@.len() ==> (#[trigger] r.matches.sets@[k].name@) == names@[k]@,
            forall|k: int|
                0 <= k < names@.len() ==> (#[trigger] r.matches.sets@[k].files@) == Map::<
                    Seq<char>,
                    ModTime,
                >::empty(),
    {
        WalkState { traversed: 0, matched: 0, matches: MatchSet::new_for(names) }
    }

    /// Classify one non-directory entry of known type: count it as
    /// traversed, and for every formatter whose pattern set matched it
    /// (`hits` is aligned with the formatter sets) record the file with
    /// its observed mtime under that formatter. Directories, entries of
    /// unknown type and traversal errors never reach this step; the
    /// caller warns and moves on, and the state is untouched.
    pub fn classify_file(&mut self, path: &String, mtime: ModTime, hits: &Vec<bool>)
        requires
            old(self).wf(),
            hits@.len() == old(self).matches.sets@.len(),
            old(self).traversed < u64::MAX,
            old(self).matched + hits@.len() <= u64::MAX,
        ensures
            final(self).wf(),
            final(self).traversed == old(self).traversed + 1,
            final(self).matched == old(self).matched + count_true(hits@),
            final(self).matches.sets@.len() == old(self).matches.sets@.len(),
            forall|k: int|
                0 <= k < hits@.len() ==> (#[trigger] final(self).matches.sets@[k].name@) == old(
                    self,
                ).matches.sets@[k].name@,
            forall|k: int|
                0 <= k < hits@.len() && hits@[k] ==> (#[trigger] final(self).matches.sets@[k].files@)
                    == old(self).matches.sets@[k].files@.insert(path@, mtime),
            forall|k: int|
                0 <= k < hits@.len() && !hits@[k] ==> (
                #[trigger] final(self).matches.sets@[k].files@) == old(
                    self,
                ).matches.sets@[k].files@,
    {
        let n = self.matches.sets.len();
        let mut new_sets: Vec<FmtFiles> = Vec::new();
        let mut hit_count: u64 = 0;
        let mut k: usize = 0;
        proof {
            assert(hits@.take(0) =~= Seq::<bool>::empty());
        }
        while k < n
            invariant
                old(self).wf(),
                self == old(self),
                n == self.matches.sets@.len(),
                hits@.len() == n,
                k <= n,
                new_sets@.len() == k,
                hit_count as int == count_true(hits@.take(k as int)),
                hit_count <= k,
                forall|l: int|
                    0 <= l < k ==> (#[trigger] new_sets@[l].name@)
                        == self.matches.sets@[l].name@,
                forall|l: int| 0 <= l < k ==> (#[trigger] new_sets@[l].files).wf(),
                forall|l: int|
                    0 <= l < k && hits@[l] ==> (#[trigger] new_sets@[l].files@)
                        == self.matches.sets@[l].files@.insert(path@, mtime),
                forall|l: int|
                    0 <= l < k && !hits@[l] ==> (#[trigger] new_sets@[l].files@)
                        == self.matches.sets@[l].files@,
            decreases n - k,
        {
            let mut files = self.matches.sets[k].files.duplicate();
            proof {
                assert(files.wf() == self.matches.sets@[k as int].files.wf());
                assert(hits@.take(k as int + 1).drop_last() =~= hits@.take(k as int));
                assert(hits@.take(k as int + 1).last() == hits@[k as int]);
            }
            if hits[k] {
                files.set(path.clone(), mtime);
                hit_count += 1;
            }
            new_sets.push(FmtFiles { name: self.matches.sets[k].name.clone(), files });
            k += 1;
        }
        proof {
            assert(hits@.take(n as int) =~= hits@);
        }
        let new_matches = MatchSet { sets: new_sets };
        proof {
            assert forall|i: int, j: int| 0 <= i < j < new_matches.sets@.len() implies (
            #[trigger] new_matches.sets@[i].name@) != (#[trigger] new_matches.sets@[j].name@) by {
                assert(self.matches.sets@[i].name@ != self.matches.sets@[j].name@);
            }
        }
        self.matches = new_matches;
        self.traversed = self.traversed + 1;
        self.matched = self.matched + hit_count;
    }
}

} // verus!
