use vstd::prelude::*;

use crate::defs::{def_eq, def_names_unique, copy_def, DefSpec, FmtDef};
use crate::filemap::{lemma_map_of_take_step, map_of, FileMap};
use crate::matchset::{lemma_ms_at, ms_has, ms_files, FmtFiles, MatchSet};
use crate::mtime::ModTime;

verus! {

/// A cached (formatter, path, mtime) binding is clean against a walk-time
/// observation exactly when the cache holds that path with the identical
/// modification time.
pub open spec fn clean_files(cfiles: Map<Seq<char>, ModTime>, p: Seq<char>, t: ModTime) -> bool {
    cfiles.dom().contains(p) && cfiles[p] == t
}

/// The stale subset of one formatter's walk result: every observed
/// (path, mtime) that the cache does not record as clean.
pub open spec fn stale_files(
    cfiles: Map<Seq<char>, ModTime>,
    walk: Map<Seq<char>, ModTime>,
) -> Map<Seq<char>, ModTime> {
    Map::new(
        |p: Seq<char>| walk.dom().contains(p) && !clean_files(cfiles, p, walk[p]),
        |p: Seq<char>| walk[p],
    )
}

/// One formatter's record in the cache manifest: the definition its file
/// entries were last validated against, and those entries.
pub struct ManifestEntry {
    pub def: FmtDef,
    pub files: FileMap,
}

/// The persisted cache manifest: per formatter, the definition in effect
/// when its entries were recorded and the last-known mtime of each file.
pub struct Manifest {
    pub entries: Vec<ManifestEntry>,
}

pub open spec fn mf_names_unique(s: Seq<ManifestEntry>) -> bool {
    forall|i: int, j: int|
        0 <= i < j < s.len() ==> (#[trigger] s[i].def.name@) != (#[trigger] s[j].def.name@)
}

pub open spec fn mf_has(s: Seq<ManifestEntry>, n: Seq<char>) -> bool {
    exists|i: int| 0 <= i < s.len() && (#[trigger] s[i].def.name@) == n
}

pub open spec fn mf_def(s: Seq<ManifestEntry>, n: Seq<char>) -> DefSpec {
    let i = choose|i: int| 0 <= i < s.len() && (#[trigger] s[i].def.name@) == n;
    s[i].def@
}

pub open spec fn mf_files(s: Seq<ManifestEntry>, n: Seq<char>) -> Map<Seq<char>, ModTime> {
    let i = choose|i: int| 0 <= i < s.len() && (#[trigger] s[i].def.name@) == n;
    s[i].files@
}

/// The cached file entries a formatter keeps across a configuration
/// reload: its old entries when its definition is byte-identical to the
/// current one, nothing otherwise.
pub open spec fn updated_files(cache: Seq<ManifestEntry>, d: DefSpec) -> Map<Seq<char>, ModTime> {
    if mf_has(cache, d.name) && mf_def(cache, d.name) == d {
        mf_files(cache, d.name)
    } else {
        Map::<Seq<char>, ModTime>::empty()
    }
}

/// What the cache knows of a formatter: its file entries, or nothing.
pub open spec fn cache_files_or_empty(cache: Seq<ManifestEntry>, n: Seq<char>) -> Map<
    Seq<char>,
    ModTime,
> {
    if mf_has(cache, n) {
        mf_files(cache, n)
    } else {
        Map::<Seq<char>, ModTime>::empty()
    }
}

/// A formatter's file entries after a run's results are recorded: the
/// result mtimes replace the cached ones path by path.
pub open spec fn merged_files(
    cfiles: Map<Seq<char>, ModTime>,
    results: Seq<FmtFiles>,
    n: Seq<char>,
) -> Map<Seq<char>, ModTime> {
    if ms_has(results, n) {
        cfiles.union_prefer_right(ms_files(results, n))
    } else {
        cfiles
    }
}

/// Under distinct names, the entry at any index is what the manifest
/// records for that entry's formatter.
pub proof fn lemma_manifest_at(s: Seq<ManifestEntry>, idx: int)
    requires
        mf_names_unique(s),
        0 <= idx < s.len(),
    ensures
        mf_has(s, s[idx].def.name@),
        mf_def(s, s[idx].def.name@) == s[idx].def@,
        mf_files(s, s[idx].def.name@) == s[idx].files@,
{
    let n = s[idx].def.name@;
    assert(0 <= idx < s.len() && s[idx].def.name@ == n);
    assert(mf_has(s, n));
    let i = choose|i: int| 0 <= i < s.len() && (#[trigger] s[i].def.name@) == n;
    if i != idx {
        assert(s[i].def.name@ != s[idx].def.name@);
        assert(false);
    }
}

impl Manifest {
    /// Well-formed: formatter names are pairwise distinct and every file
    /// map is well-formed.
    pub open spec fn wf(&self) -> bool {
        &&& mf_names_unique(self.entries@)
        &&& forall|k: int| 0 <= k < self.entries@.len() ==> (#[trigger] self.entries@[k].files).wf()
    }

    /// The empty manifest: the state after a cache clear, or when no
    /// persisted cache exists or it was unreadable.
    pub fn new() -> (r: Manifest)
        ensures
            r.wf(),
            r.entries@.len() == 0,
    {
        Manifest { entries: Vec::new() }
    }

    /// The position of a formatter's record, if the name is present.
    pub fn find_fmt(&self, n: &String) -> (r: Option<usize>)
        ensures
            match r {
                Some(i) => i < self.entries@.len() && self.entries@[i as int].def.name@ == n@,
                None => !mf_has(self.entries@, n@),
            },
    {
        let len = self.entries.len();
        let mut i: usize = 0;
        while i < len
            invariant
                len == self.entries@.len(),
                i <= len,
                forall|j: int| 0 <= j < i ==> (#[trigger] self.entries@[j].def.name@) != n@,
            decreases len - i,
        {
            if self.entries[i].def.name == *n {
                return Some(i);
            }
            i += 1;
        }
        None
    }

    pub fn has_formatter(&self, n: &String) -> (r: bool)
        ensures
            r == mf_has(self.entries@, n@),
    {
        match self.find_fmt(n) {
            Some(i) => {
                proof {
                    assert(self.entries@[i as int].def.name@ == n@);
                    assert(mf_has(self.entries@, n@));
                }
                true
            },
            None => false,
        }
    }

    /// Adopt the formatter definitions configured for this run. Every
    /// formatter whose current definition differs from the recorded one —
    /// and every formatter the cache has never seen — starts over with no
    /// cached entries, which forces a full reprocessing of its files.
    pub fn update_formatters(&self, defs: &Vec<FmtDef>) -> (r: Manifest)
        requires
            self.wf(),
            def_names_unique(defs@),
        ensures
            r.wf(),
            r.entries@.len() == defs@.len(),
            forall|k: int| 0 <= k < defs@.len() ==> (#[trigger] r.entries@[k].def@) == defs@[k]@,
            forall|k: int|
                0 <= k < defs@.len() ==> (#[trigger] r.entries@[k].files@) == updated_files(
                    self.entries@,
                    defs@[k]@,
                ),
    {
        let mut entries: Vec<ManifestEntry> = Vec::new();
        let n = defs.len();
        let mut k: usize = 0;
        while k < n
            invariant
                self.wf(),
                n == defs@.len(),
                k <= n,
                entries@.len() == k,
                forall|l: int| 0 <= l < k ==> (#[trigger] entries@[l].def@) == defs@[l]@,
                forall|l: int| 0 <= l < k ==> (#[trigger] entries@[l].files).wf(),
                forall|l: int|
                    0 <= l < k ==> (#[trigger] entries@[l].files@) == updated_files(
                        self.entries@,
                        defs@[l]@,
                    ),
            decreases n - k,
        {
            let d = copy_def(&defs[k]);
            let files: FileMap = match self.find_fmt(&d.name) {
                Some(ci) => {
                    proof {
                        lemma_manifest_at(self.entries@, ci as int);
                    }
                    if def_eq(&self.entries[ci].def, &d) {
                        self.entries[ci].files.duplicate()
                    } else {
                        FileMap::new()
                    }
                },
                None => FileMap::new(),
            };
            proof {
                assert(files@ == updated_files(self.entries@, d@));
            }
            entries.push(ManifestEntry { def: d, files });
            k += 1;
        }
        let r = Manifest { entries };
        proof {
            assert(def_names_unique(defs@));
            assert forall|i: int, j: int| 0 <= i < j < r.entries@.len() implies (
            #[trigger] r.entries@[i].def.name@) != (#[trigger] r.entries@[j].def.name@) by {
                assert(r.entries@[i].def@ == defs@[i]@ && r.entries@[j].def@ == defs@[j]@);
                assert(defs@[i].name@ != defs@[j].name@);
            }
        }
        r
    }

    /// The core cost-avoidance operation: intersect a walk result with the
    /// cache and keep only the (formatter, path, mtime) triples that are
    /// stale. Clean entries — recorded for that formatter with the
    /// identical mtime — are dropped; a formatter the cache does not know
    /// keeps every observed file.
    pub fn filter_stale(&self, ms: &MatchSet) -> (r: MatchSet)
        requires
            self.wf(),
            ms.wf(),
        ensures
            r.wf(),
            r.sets@.len() == ms.sets@.len(),
            forall|k: int|
                0 <= k < ms.sets@.len() ==> (#[trigger] r.sets@[k].name@) == ms.sets@[k].name@,
            forall|k: int|
                0 <= k < ms.sets@.len() ==> (#[trigger] r.sets@[k].files@) == stale_files(
                    cache_files_or_empty(self.entries@, ms.sets@[k].name@),
                    ms.sets@[k].files@,
                ),
    {
        let mut sets: Vec<FmtFiles> = Vec::new();
        let n = ms.sets.len();
        let mut k: usize = 0;
        while k < n
            invariant
                self.wf(),
                ms.wf(),
                n == ms.sets@.len(),
                k <= n,
                sets@.len() == k,
                forall|l: int| 0 <= l < k ==> (#[trigger] sets@[l].name@) == ms.sets@[l].name@,
                forall|l: int| 0 <= l < k ==> (#[trigger] sets@[l].files).wf(),
                forall|l: int|
                    0 <= l < k ==> (#[trigger] sets@[l].files@) == stale_files(
                        cache_files_or_empty(self.entries@, ms.sets@[l].name@),
                        ms.sets@[l].files@,
                    ),
            decreases n - k,
        {
            let cidx = self.find_fmt(&ms.sets[k].name);
            let ghost cf = cache_files_or_empty(self.entries@, ms.sets@[k as int].name@);
            proof {
                if let Some(ci) = cidx {
                    lemma_manifest_at(self.entries@, ci as int);
                }
            }
            let flen = ms.sets[k].files.entries.len();
            let mut kept = FileMap::new();
            let mut j: usize = 0;
            proof {
                assert(ms.sets@[k as int].files.entries@.take(0) =~= Seq::<
                    crate::filemap::FileEntry,
                >::empty());
                assert(kept@ =~= stale_files(cf, map_of(ms.sets@[k as int].files.entries@.take(0))));
            }
            while j < flen
                invariant
                    self.wf(),
                    ms.wf(),
                    0 <= k < ms.sets@.len(),
                    cf == cache_files_or_empty(self.entries@, ms.sets@[k as int].name@),
                    match cidx {
                        Some(ci) => ci < self.entries@.len() && self.entries@[ci as int].def.name@
                            == ms.sets@[k as int].name@ && self.entries@[ci as int].files@ == cf,
                        None => cf == Map::<Seq<char>, ModTime>::empty(),
                    },
                    flen == ms.sets@[k as int].files.entries@.len(),
                    j <= flen,
                    kept.wf(),
                    kept@ == stale_files(
                        cf,
                        map_of(ms.sets@[k as int].files.entries@.take(j as int)),
                    ),
                decreases flen - j,
            {
                let ghost src = ms.sets@[k as int].files.entries@;
                let e_mtime = ms.sets[k].files.entries[j].mtime;
                let is_clean: bool = match cidx {
                    Some(ci) => match self.entries[ci].files.get(&ms.sets[k].files.entries[j].path) {
                        Some(t0) => t0 == e_mtime,
                        None => false,
                    },
                    None => false,
                };
                proof {
                    assert(is_clean == clean_files(cf, src[j as int].path@, e_mtime));
                    lemma_map_of_take_step(src, j as int);
                }
                let ghost m0 = map_of(src.take(j as int));
                let ghost m1 = map_of(src.take(j as int + 1));
                if !is_clean {
                    kept.push_new(ms.sets[k].files.entries[j].path.clone(), e_mtime);
                    proof {
                        assert(stale_files(cf, m1) =~= stale_files(cf, m0).insert(
                            src[j as int].path@,
                            src[j as int].mtime,
                        ));
                    }
                } else {
                    proof {
                        assert(stale_files(cf, m1) =~= stale_files(cf, m0));
                    }
                }
                j += 1;
            }
            proof {
                assert(ms.sets@[k as int].files.entries@.take(flen as int) =~= ms.sets@[k as int].files.entries@);
            }
            sets.push(FmtFiles { name: ms.sets[k].name.clone(), files: kept });
            k += 1;
        }
        let r = MatchSet { sets };
        proof {
            assert forall|i: int, j: int| 0 <= i < j < r.sets@.len() implies (
            #[trigger] r.sets@[i].name@) != (#[trigger] r.sets@[j].name@) by {
                assert(ms.sets@[i].name@ != ms.sets@[j].name@);
            }
        }
        r
    }

    /// Record a run's results: for each formatter and path in the result
    /// set, the observed mtime replaces any prior entry for that
    /// (formatter, path), alongside the definition already adopted for
    /// this run. Entries the results do not mention pass through
    /// unchanged.
    pub fn add_results(&self, results: &MatchSet) -> (r: Manifest)
        requires
            self.wf(),
            results.wf(),
            forall|k: int|
                0 <= k < results.sets@.len() ==> mf_has(
                    self.entries@,
                    #[trigger] results.sets@[k].name@,
                ),
        ensures
            r.wf(),
            r.entries@.len() == self.entries@.len(),
            forall|k: int|
                0 <= k < self.entries@.len() ==> (#[trigger] r.entries@[k].def@)
                    == self.entries@[k].def@,
            forall|k: int|
                0 <= k < self.entries@.len() ==> (#[trigger] r.entries@[k].files@) == merged_files(
                    self.entries@[k].files@,
                    results.sets@,
                    self.entries@[k].def.name@,
                ),
    {
        let mut entries: Vec<ManifestEntry> = Vec::new();
        let n = self.entries.len();
        let mut k: usize = 0;
        while k < n
            invariant
                self.wf(),
                results.wf(),
                n == self.entries@.len(),
                k <= n,
                entries@.len() == k,
                forall|l: int| 0 <= l < k ==> (#[trigger] entries@[l].def@) == self.entries@[l].def@,
                forall|l: int|
                    0 <= l < k ==> (#[trigger] entries@[l].def.name@) == self.entries@[l].def.name@,
                forall|l: int| 0 <= l < k ==> (#[trigger] entries@[l].files).wf(),
                forall|l: int|
                    0 <= l < k ==> (#[trigger] entries@[l].files@) == merged_files(
                        self.entries@[l].files@,
                        results.sets@,
                        self.entries@[l].def.name@,
                    ),
            decreases n - k,
        {
            let d = copy_def(&self.entries[k].def);
            let mut files = self.entries[k].files.duplicate();
            let ghost base = self.entries@[k as int].files@;
            match results.find_set(&d.name) {
                Some(si) => {
                    proof {
                        lemma_ms_at(results.sets@, si as int);
                    }
                    let rlen = results.sets[si].files.entries.len();
                    let mut j: usize = 0;
                    proof {
                        assert(results.sets@[si as int].files.entries@.take(0) =~= Seq::<
                            crate::filemap::FileEntry,
                        >::empty());
                        assert(files@ =~= base.union_prefer_right(
                            map_of(results.sets@[si as int].files.entries@.take(0)),
                        ));
                    }
                    while j < rlen
                        invariant
                            results.wf(),
                            0 <= si < results.sets@.len(),
                            rlen == results.sets@[si as int].files.entries@.len(),
                            j <= rlen,
                            files.wf(),
                            files@ == base.union_prefer_right(
                                map_of(results.sets@[si as int].files.entries@.take(j as int)),
                            ),
                        decreases rlen - j,
                    {
                        let ghost src = results.sets@[si as int].files.entries@;
                        proof {
                            lemma_map_of_take_step(src, j as int);
                        }
                        let ghost m0 = map_of(src.take(j as int));
                        let ghost m1 = map_of(src.take(j as int + 1));
                        files.set(
                            results.sets[si].files.entries[j].path.clone(),
                            results.sets[si].files.entries[j].mtime,
                        );
                        proof {
                            assert(base.union_prefer_right(m1) =~= base.union_prefer_right(
                                m0,
                            ).insert(src[j as int].path@, src[j as int].mtime));
                        }
                        j += 1;
                    }
                    proof {
                        assert(results.sets@[si as int].files.entries@.take(rlen as int)
                            =~= results.sets@[si as int].files.entries@);
                        assert(files@ == merged_files(base, results.sets@, d.name@));
                    }
                },
                None => {
                    proof {
                        assert(files@ == merged_files(base, results.sets@, d.name@));
                    }
                },
            }
            entries.push(ManifestEntry { def: d, files });
            k += 1;
        }
        let r = Manifest { entries };
        proof {
            assert forall|i: int, j: int| 0 <= i < j < r.entries@.len() implies (
            #[trigger] r.entries@[i].def.name@) != (#[trigger] r.entries@[j].def.name@) by {
                assert(self.entries@[i].def.name@ != self.entries@[j].def.name@);
            }
        }
        r
    }
}

} // verus!
