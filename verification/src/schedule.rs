use vstd::prelude::*;

use crate::filemap::{map_of, seq_has_path, FileEntry, FileMap};
use crate::mtime::ModTime;

verus! {

/// How one formatter invocation on its batch ended, as observed by the
/// caller that ran the external tool: on success, the post-run
/// modification time of each batch path, in batch order; on failure,
/// nothing — a failed batch neither aborts other formatters nor the run.
pub enum BatchOutcome {
    Success(Vec<ModTime>),
    Failure,
}

/// The paths of one formatter's batch, in recorded order: the argument
/// list for a single invocation of that formatter's external tool.
pub fn batch_paths(files: &FileMap) -> (r: Vec<String>)
    ensures
        r@.len() == files.entries@.len(),
        forall|i: int| 0 <= i < r@.len() ==> (#[trigger] r@[i]@) == files.entries@[i].path@,
{
    let mut r: Vec<String> = Vec::new();
    let n = files.entries.len();
    let mut i: usize = 0;
    while i < n
        invariant
            n == files.entries@.len(),
            i <= n,
            r@.len() == i,
            forall|j: int| 0 <= j < i ==> (#[trigger] r@[j]@) == files.entries@[j].path@,
        decreases n - i,
    {
        r.push(files.entries[i].path.clone());
        i += 1;
    }
    r
}

/// Two entry sequences over the same paths stand for maps with the same
/// domain.
pub proof fn lemma_same_paths_same_dom(s1: Seq<FileEntry>, s2: Seq<FileEntry>)
    requires
        s1.len() == s2.len(),
        forall|i: int| 0 <= i < s1.len() ==> (#[trigger] s1[i].path@) == s2[i].path@,
    ensures
        map_of(s1).dom() =~= map_of(s2).dom(),
{
    assert forall|q: Seq<char>| seq_has_path(s1, q) implies seq_has_path(s2, q) by {
        let i = choose|i: int| 0 <= i < s1.len() && (#[trigger] s1[i].path@) == q;
        assert(s2[i].path@ == q);
    }
    assert forall|q: Seq<char>| seq_has_path(s2, q) implies seq_has_path(s1, q) by {
        let i = choose|i: int| 0 <= i < s2.len() && (#[trigger] s2[i].path@) == q;
        assert(s1[i].path@ == q);
    }
}

/// The (path, mtime) set to record for a batch once its formatter ran:
/// after success the freshly observed post-run mtimes, whether or not any
/// content changed; after failure the batch's pre-run mtimes, unchanged,
/// so the cache is not advanced past work that did not happen.
pub fn record_outcome(batch: &FileMap, outcome: &BatchOutcome) -> (r: FileMap)
    requires
        batch.wf(),
        match outcome {
            BatchOutcome::Success(post) => post@.len() == batch.entries@.len(),
            BatchOutcome::Failure => true,
        },
    ensures
        r.wf(),
        r.entries@.len() == batch.entries@.len(),
        forall|i: int|
            0 <= i < r.entries@.len() ==> (#[trigger] r.entries@[i].path@)
                == batch.entries@[i].path@,
        r@.dom() == batch@.dom(),
        match outcome {
            BatchOutcome::Success(post) => forall|i: int|
                0 <= i < r.entries@.len() ==> (#[trigger] r.entries@[i].mtime) == post@[i],
            BatchOutcome::Failure => r@ == batch@,
        },
{
    let r = match outcome {
        BatchOutcome::Success(post) => {
            let mut entries: Vec<FileEntry> = Vec::new();
            let n = batch.entries.len();
            let mut i: usize = 0;
            while i < n
                invariant
                    n == batch.entries@.len(),
                    n == post@.len(),
                    i <= n,
                    entries@.len() == i,
                    forall|j: int|
                        0 <= j < i ==> (#[trigger] entries@[j].path@) == batch.entries@[j].path@,
                    forall|j: int| 0 <= j < i ==> (#[trigger] entries@[j].mtime) == post@[j],
                decreases n - i,
            {
                entries.push(FileEntry { path: batch.entries[i].path.clone(), mtime: post[i] });
                i += 1;
            }
            let r = FileMap { entries };
            proof {
                assert forall|a: int, b: int| 0 <= a < b < r.entries@.len() implies (
                #[trigger] r.entries@[a].path@) != (#[trigger] r.entries@[b].path@) by {
                    assert(batch.entries@[a].path@ != batch.entries@[b].path@);
                }
            }
            r
        },
        BatchOutcome::Failure => batch.duplicate(),
    };
    proof {
        lemma_same_paths_same_dom(r.entries@, batch.entries@);
    }
    r
}

} // verus!
