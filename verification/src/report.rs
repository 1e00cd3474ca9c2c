use vstd::prelude::*;

use crate::filemap::{lemma_entry_in_map, FileEntry, FileMap};
use crate::matchset::{FmtFiles, MatchSet};
use crate::mtime::ModTime;

verus! {

/// How many recorded entries carry an mtime different from what the
/// pre-run observation holds for the same path: a strict difference means
/// the file was rewritten.
pub open spec fn changed_count(pre: Map<Seq<char>, ModTime>, post: Seq<FileEntry>) -> int
    decreases post.len(),
{
    if post.len() == 0 {
        0int
    } else {
        changed_count(pre, post.drop_last()) + if pre.dom().contains(post.last().path@)
            && pre[post.last().path@] != post.last().mtime {
            1int
        } else {
            0int
        }
    }
}

pub proof fn lemma_changed_count_bound(pre: Map<Seq<char>, ModTime>, post: Seq<FileEntry>)
    ensures
        0 <= changed_count(pre, post) <= post.len(),
    decreases post.len(),
{
    if post.len() > 0 {
        lemma_changed_count_bound(pre, post.drop_last());
    }
}

/// Count the files of one batch whose post-run mtime differs from the
/// pre-run one.
pub fn count_changed_in(pre: &FileMap, post: &FileMap) -> (r: u64)
    requires
        pre.wf(),
        post.wf(),
        forall|p: Seq<char>| #[trigger] post@.dom().contains(p) ==> pre@.dom().contains(p),
    ensures
        r as int == changed_count(pre@, post.entries@),
        r <= post.entries@.len(),
{
    let n = post.entries.len();
    let mut count: u64 = 0;
    let mut i: usize = 0;
    proof {
        assert(post.entries@.take(0) =~= Seq::<FileEntry>::empty());
    }
    while i < n
        invariant
            pre.wf(),
            post.wf(),
            forall|p: Seq<char>| #[trigger] post@.dom().contains(p) ==> pre@.dom().contains(p),
            n == post.entries@.len(),
            i <= n,
            count as int == changed_count(pre@, post.entries@.take(i as int)),
            count <= i,
        decreases n - i,
    {
        proof {
            lemma_entry_in_map(post.entries@, i as int);
            assert(post@.dom().contains(post.entries@[i as int].path@));
            assert(post.entries@.take(i as int + 1).drop_last() =~= post.entries@.take(i as int));
            assert(post.entries@.take(i as int + 1).last() == post.entries@[i as int]);
        }
        let changed: bool = match pre.get(&post.entries[i].path) {
            Some(t0) => t0 != post.entries[i].mtime,
            None => {
                proof {
                    assert(false);
                }
                false
            },
        };
        if changed {
            count = count + 1;
        }
        i += 1;
    }
    proof {
        assert(post.entries@.take(n as int) =~= post.entries@);
    }
    count
}

/// Total rewritten files across all formatter batches, batch by batch.
pub open spec fn total_changed(pre: Seq<FmtFiles>, post: Seq<FmtFiles>) -> int
    decreases post.len(),
{
    if post.len() == 0 {
        0int
    } else {
        total_changed(pre.drop_last(), post.drop_last()) + changed_count(
            pre.last().files@,
            post.last().files.entries@,
        )
    }
}

pub proof fn lemma_total_changed_prefix_le(pre: Seq<FmtFiles>, post: Seq<FmtFiles>, k: int)
    requires
        pre.len() == post.len(),
        0 <= k <= post.len(),
    ensures
        total_changed(pre.take(k), post.take(k)) <= total_changed(pre, post),
    decreases post.len() - k,
{
    if k == post.len() {
        assert(pre.take(k) =~= pre);
        assert(post.take(k) =~= post);
    } else {
        lemma_total_changed_prefix_le(pre, post, k + 1);
        assert(pre.take(k + 1).drop_last() =~= pre.take(k));
        assert(post.take(k + 1).drop_last() =~= post.take(k));
        assert(pre.take(k + 1).last() == pre[k]);
        assert(post.take(k + 1).last() == post[k]);
        lemma_changed_count_bound(pre[k].files@, post[k].files.entries@);
    }
}

/// Count, across all formatters, the files whose recorded post-run mtime
/// differs from the pre-run observation. `pre` is the filtered match set
/// the scheduler started from; `post` holds, batch by batch in the same
/// order, what was recorded after each formatter ran.
pub fn count_reformatted(pre: &MatchSet, post: &MatchSet) -> (r: Option<u64>)
    requires
        pre.wf(),
        post.wf(),
        post.sets@.len() == pre.sets@.len(),
        forall|k: int, p: Seq<char>|
            0 <= k < post.sets@.len() && (#[trigger] post.sets@[k].files@.dom().contains(p))
                ==> pre.sets@[k].files@.dom().contains(p),
    ensures
        match r {
            Some(c) => c as int == total_changed(pre.sets@, post.sets@),
            None => total_changed(pre.sets@, post.sets@) > u64::MAX,
        },
{
    let n = post.sets.len();
    let mut acc: u64 = 0;
    let mut k: usize = 0;
    proof {
        assert(pre.sets@.take(0) =~= Seq::<FmtFiles>::empty());
        assert(post.sets@.take(0) =~= Seq::<FmtFiles>::empty());
    }
    while k < n
        invariant
            pre.wf(),
            post.wf(),
            n == post.sets@.len(),
            n == pre.sets@.len(),
            forall|l: int, p: Seq<char>|
                0 <= l < post.sets@.len() && (#[trigger] post.sets@[l].files@.dom().contains(p))
                    ==> pre.sets@[l].files@.dom().contains(p),
            k <= n,
            acc as int == total_changed(pre.sets@.take(k as int), post.sets@.take(k as int)),
        decreases n - k,
    {
        proof {
            assert(pre.sets@.take(k as int + 1).drop_last() =~= pre.sets@.take(k as int));
            assert(post.sets@.take(k as int + 1).drop_last() =~= post.sets@.take(k as int));
            assert(pre.sets@.take(k as int + 1).last() == pre.sets@[k as int]);
            assert(post.sets@.take(k as int + 1).last() == post.sets@[k as int]);
        }
        let c = count_changed_in(&pre.sets[k].files, &post.sets[k].files);
        match acc.checked_add(c) {
            Some(next) => {
                acc = next;
            },
            None => {
                proof {
                    lemma_total_changed_prefix_le(pre.sets@, post.sets@, k as int + 1);
                }
                return None;
            },
        }
        k += 1;
    }
    proof {
        assert(pre.sets@.take(n as int) =~= pre.sets@);
        assert(post.sets@.take(n as int) =~= post.sets@);
    }
    Some(acc)
}

/// Total number of (formatter, file) pairs a match set holds.
pub open spec fn total_files(s: Seq<FmtFiles>) -> int
    decreases s.len(),
{
    if s.len() == 0 {
        0int
    } else {
        total_files(s.drop_last()) + s.last().files.entries@.len()
    }
}

pub proof fn lemma_total_files_prefix_le(s: Seq<FmtFiles>, k: int)
    requires
        0 <= k <= s.len(),
    ensures
        total_files(s.take(k)) <= total_files(s),
    decreases s.len() - k,
{
    if k == s.len() {
        assert(s.take(k) =~= s);
    } else {
        lemma_total_files_prefix_le(s, k + 1);
        assert(s.take(k + 1).drop_last() =~= s.take(k));
        assert(s.take(k + 1).last() == s[k]);
    }
}

/// Count the (formatter, file) pairs of a match set: the "matched" and
/// "left after cache filtering" figures of the run summary.
pub fn count_total_files(ms: &MatchSet) -> (r: Option<u64>)
    ensures
        match r {
            Some(c) => c as int == total_files(ms.sets@),
            None => total_files(ms.sets@) > u64::MAX,
        },
{
    let n = ms.sets.len();
    let mut acc: u64 = 0;
    let mut k: usize = 0;
    proof {
        assert(ms.sets@.take(0) =~= Seq::<FmtFiles>::empty());
    }
    while k < n
        invariant
            n == ms.sets@.len(),
            k <= n,
            acc as int == total_files(ms.sets@.take(k as int)),
        decreases n - k,
    {
        proof {
            assert(ms.sets@.take(k as int + 1).drop_last() =~= ms.sets@.take(k as int));
            assert(ms.sets@.take(k as int + 1).last() == ms.sets@[k as int]);
        }
        let c = ms.sets[k].files.len();
        match acc.checked_add(c as u64) {
            Some(next) => {
                acc = next;
            },
            None => {
                proof {
                    lemma_total_files_prefix_le(ms.sets@, k as int + 1);
                }
                return None;
            },
        }
        k += 1;
    }
    proof {
        assert(ms.sets@.take(n as int) =~= ms.sets@);
    }
    Some(acc)
}

/// The figures a run reports: total files traversed, total
/// (formatter, file) matches before cache filtering, matches left after
/// filtering, and files actually rewritten.
#[derive(Clone, Copy, PartialEq, Eq, Structural, Debug)]
pub struct RunSummary {
    pub traversed: u64,
    pub matched: u64,
    pub filtered: u64,
    pub reformatted: u64,
}

/// How a completed run ends: plain success, or the distinct
/// change-detected outcome used as a CI gate.
#[derive(Clone, Copy, PartialEq, Eq, Structural, Debug)]
pub enum RunOutcome {
    Success,
    ChangeDetected,
}

/// Fail-on-change gating: the run reports the distinct change-detected
/// outcome exactly when at least one file was rewritten and the caller
/// asked for change-as-failure; in every other case it succeeds.
pub fn run_outcome(reformatted: u64, fail_on_change: bool) -> (r: RunOutcome)
    ensures
        r == (if fail_on_change && reformatted > 0 {
            RunOutcome::ChangeDetected
        } else {
            RunOutcome::Success
        }),
{
    if fail_on_change && reformatted > 0 {
        RunOutcome::ChangeDetected
    } else {
        RunOutcome::Success
    }
}

} // verus!
