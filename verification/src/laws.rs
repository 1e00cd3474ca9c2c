use vstd::prelude::*;

use crate::defs::DefSpec;
use crate::manifest::{
    clean_files, mf_def, mf_files, mf_has, stale_files, updated_files, ManifestEntry,
};
use crate::mtime::ModTime;

verus! {

/// Invalidation on config change: when a formatter's current definition
/// differs from the recorded one (or the cache has never seen it), the
/// entries it keeps across the reload are empty, and the staleness filter
/// then passes every observed file of that formatter through — each one
/// is rescheduled even though its mtime is unchanged.
pub proof fn lemma_config_change_reschedules_all(
    cache: Seq<ManifestEntry>,
    d: DefSpec,
    walk: Map<Seq<char>, ModTime>,
)
    requires
        mf_has(cache, d.name) ==> mf_def(cache, d.name) != d,
    ensures
        updated_files(cache, d) == Map::<Seq<char>, ModTime>::empty(),
        stale_files(updated_files(cache, d), walk) == walk,
{
    assert(stale_files(Map::<Seq<char>, ModTime>::empty(), walk) =~= walk);
}

/// The complement of invalidation: a formatter whose current definition
/// is byte-identical to the recorded one keeps every cached entry across
/// the configuration reload.
pub proof fn lemma_unchanged_def_keeps_entries(cache: Seq<ManifestEntry>, d: DefSpec)
    requires
        mf_has(cache, d.name),
        mf_def(cache, d.name) == d,
    ensures
        updated_files(cache, d) == mf_files(cache, d.name),
{
}

/// Mtime drives clean/dirty, dirty direction: a cached entry whose
/// recorded mtime differs from the one observed on disk is scheduled as
/// stale, with its observed mtime.
pub proof fn lemma_mtime_change_is_stale(
    cfiles: Map<Seq<char>, ModTime>,
    walk: Map<Seq<char>, ModTime>,
    p: Seq<char>,
    t0: ModTime,
    t1: ModTime,
)
    requires
        cfiles.dom().contains(p),
        cfiles[p] == t0,
        walk.dom().contains(p),
        walk[p] == t1,
        t1 != t0,
    ensures
        stale_files(cfiles, walk).dom().contains(p),
        stale_files(cfiles, walk)[p] == t1,
{
}

/// Mtime drives clean/dirty, clean direction: a cached entry whose
/// recorded mtime equals the observed one is dropped by the filter.
pub proof fn lemma_unchanged_is_clean(
    cfiles: Map<Seq<char>, ModTime>,
    walk: Map<Seq<char>, ModTime>,
    p: Seq<char>,
)
    requires
        cfiles.dom().contains(p),
        walk.dom().contains(p),
        cfiles[p] == walk[p],
    ensures
        !stale_files(cfiles, walk).dom().contains(p),
{
}

/// Idempotence: consider one formatter across two consecutive runs with
/// no file edits in between. `c0` is its cache at the first run (its
/// definition already validated), `w1` the first walk's observation,
/// `post` the mtimes the first run recorded for its scheduled batch, and
/// `w2` the second walk's observation: the same files, where every
/// scheduled file now carries the recorded post-run mtime and every other
/// file is unchanged. Then the second run's staleness filter drops
/// everything — the second run schedules no file and rewrites none.
pub proof fn lemma_second_run_all_clean(
    c0: Map<Seq<char>, ModTime>,
    w1: Map<Seq<char>, ModTime>,
    post: Map<Seq<char>, ModTime>,
    w2: Map<Seq<char>, ModTime>,
)
    requires
        post.dom() == stale_files(c0, w1).dom(),
        w2.dom() == w1.dom(),
        forall|p: Seq<char>| #[trigger] post.dom().contains(p) ==> w2[p] == post[p],
        forall|p: Seq<char>|
            w1.dom().contains(p) && !post.dom().contains(p) ==> #[trigger] w2[p] == w1[p],
    ensures
        stale_files(c0.union_prefer_right(post), w2) == Map::<Seq<char>, ModTime>::empty(),
{
    let c1 = c0.union_prefer_right(post);
    assert forall|p: Seq<char>| #[trigger] w2.dom().contains(p) implies clean_files(
        c1,
        p,
        w2[p],
    ) by {
        if post.dom().contains(p) {
            assert(c1[p] == post[p]);
        } else {
            assert(w1.dom().contains(p));
            assert(!stale_files(c0, w1).dom().contains(p));
            assert(clean_files(c0, p, w1[p]));
            assert(c1[p] == c0[p]);
            assert(w2[p] == w1[p]);
        }
    }
    assert(stale_files(c1, w2) =~= Map::<Seq<char>, ModTime>::empty());
}

/// Failure does not advance the cache: when a batch fails, the recorded
/// result set is the batch itself, so every scheduled file is written
/// back to the cache with its pre-run (walk-time) mtime — never with an
/// mtime of work that did not happen.
pub proof fn lemma_failed_batch_records_pre_mtimes(
    c0: Map<Seq<char>, ModTime>,
    w1: Map<Seq<char>, ModTime>,
)
    ensures
        forall|p: Seq<char>|
            #[trigger] stale_files(c0, w1).dom().contains(p) ==> c0.union_prefer_right(
                stale_files(c0, w1),
            )[p] == w1[p],
{
}

/// After a failed batch, a file of that batch is rescheduled by the next
/// run whenever its mtime on disk then differs from the walk-time mtime
/// the failed run recorded for it.
pub proof fn lemma_failed_batch_stays_stale(
    c0: Map<Seq<char>, ModTime>,
    w1: Map<Seq<char>, ModTime>,
    w2: Map<Seq<char>, ModTime>,
    p: Seq<char>,
)
    requires
        stale_files(c0, w1).dom().contains(p),
        w2.dom().contains(p),
        w2[p] != w1[p],
    ensures
        stale_files(c0.union_prefer_right(stale_files(c0, w1)), w2).dom().contains(p),
{
    lemma_failed_batch_records_pre_mtimes(c0, w1);
}

/// Fan-out: a file observed under two formatters and stale under both is
/// scheduled in both formatters' batches of the same run.
pub proof fn lemma_fan_out(
    c1: Map<Seq<char>, ModTime>,
    c2: Map<Seq<char>, ModTime>,
    w1: Map<Seq<char>, ModTime>,
    w2: Map<Seq<char>, ModTime>,
    p: Seq<char>,
)
    requires
        w1.dom().contains(p),
        w2.dom().contains(p),
        !clean_files(c1, p, w1[p]),
        !clean_files(c2, p, w2[p]),
    ensures
        stale_files(c1, w1).dom().contains(p),
        stale_files(c2, w2).dom().contains(p),
        stale_files(c1, w1)[p] == w1[p],
        stale_files(c2, w2)[p] == w2[p],
{
}

} // verus!
