use treefmt::classify::WalkState;
use treefmt::defs::FmtDef;
use treefmt::filemap::{FileEntry, FileMap};
use treefmt::manifest::Manifest;
use treefmt::matchset::{FmtFiles, MatchSet};
use treefmt::mtime::ModTime;
use treefmt::report::{count_reformatted, count_total_files, run_outcome, RunOutcome};
use treefmt::schedule::{batch_paths, record_outcome, BatchOutcome};

fn t(secs: i64) -> ModTime {
    ModTime { secs, nanos: 0 }
}

fn def(name: &str, command: &str, includes: &[&str]) -> FmtDef {
    FmtDef {
        name: name.to_string(),
        command: command.to_string(),
        args: Vec::new(),
        work_dir: "/proj".to_string(),
        includes: includes.iter().map(|s| s.to_string()).collect(),
        excludes: Vec::new(),
    }
}

fn names(defs: &[FmtDef]) -> Vec<String> {
    defs.iter().map(|d| d.name.clone()).collect()
}

/// Feed the three-file project tree of the change-accounting scenario to
/// the classifier: `a.go` matches "go", `b.md` matches "md", `c.txt`
/// matches nothing.
fn walk_three_files(defs: &[FmtDef], a_go: ModTime, b_md: ModTime) -> WalkState {
    let mut st = WalkState::new_for(&names(defs));
    st.classify_file(&"/proj/a.go".to_string(), a_go, &vec![true, false]);
    st.classify_file(&"/proj/b.md".to_string(), b_md, &vec![false, true]);
    st.classify_file(&"/proj/c.txt".to_string(), t(9), &vec![false, false]);
    st
}

fn files_of<'a>(ms: &'a MatchSet, name: &str) -> &'a FileMap {
    let i = ms
        .find_set(&name.to_string())
        .expect("formatter set present");
    &ms.sets[i].files
}

#[test]
fn change_accounting_first_run() {
    let defs = vec![def("go", "gofmt", &["*.go"]), def("md", "prettier", &["*.md"])];
    let st = walk_three_files(&defs, t(100), t(200));
    assert_eq!(st.traversed, 3);
    assert_eq!(st.matched, 2);

    let cache = Manifest::new().update_formatters(&defs);
    let filtered = cache.filter_stale(&st.matches);
    assert_eq!(count_total_files(&filtered), Some(2));

    // "go" rewrites a.go (its mtime moves), "md" touches b.md without
    // changing it (its mtime stays).
    let go_batch = files_of(&filtered, "go");
    let md_batch = files_of(&filtered, "md");
    assert_eq!(batch_paths(go_batch), vec!["/proj/a.go".to_string()]);
    assert_eq!(batch_paths(md_batch), vec!["/proj/b.md".to_string()]);

    let go_post = record_outcome(go_batch, &BatchOutcome::Success(vec![t(150)]));
    let md_post = record_outcome(md_batch, &BatchOutcome::Success(vec![t(200)]));
    let results = MatchSet {
        sets: vec![
            FmtFiles { name: "go".to_string(), files: go_post },
            FmtFiles { name: "md".to_string(), files: md_post },
        ],
    };
    assert_eq!(count_reformatted(&filtered, &results), Some(1));
}

#[test]
fn change_accounting_second_run_is_clean() {
    let defs = vec![def("go", "gofmt", &["*.go"]), def("md", "prettier", &["*.md"])];
    let st1 = walk_three_files(&defs, t(100), t(200));
    let cache = Manifest::new().update_formatters(&defs);
    let filtered1 = cache.filter_stale(&st1.matches);
    let go_post = record_outcome(files_of(&filtered1, "go"), &BatchOutcome::Success(vec![t(150)]));
    let md_post = record_outcome(files_of(&filtered1, "md"), &BatchOutcome::Success(vec![t(200)]));
    let results = MatchSet {
        sets: vec![
            FmtFiles { name: "go".to_string(), files: go_post },
            FmtFiles { name: "md".to_string(), files: md_post },
        ],
    };
    let cache1 = cache.add_results(&results);

    // Second run, no intervening edits: the walk observes the post-run
    // mtimes. Everything is filtered as clean and nothing is rewritten.
    let st2 = walk_three_files(&defs, t(150), t(200));
    assert_eq!(st2.traversed, 3);
    assert_eq!(st2.matched, 2);
    let cache2 = cache1.update_formatters(&defs);
    let filtered2 = cache2.filter_stale(&st2.matches);
    assert_eq!(count_total_files(&filtered2), Some(0));
    let results2 = MatchSet {
        sets: vec![
            FmtFiles { name: "go".to_string(), files: record_outcome(files_of(&filtered2, "go"), &BatchOutcome::Failure) },
            FmtFiles { name: "md".to_string(), files: record_outcome(files_of(&filtered2, "md"), &BatchOutcome::Failure) },
        ],
    };
    assert_eq!(count_reformatted(&filtered2, &results2), Some(0));
}

#[test]
fn config_change_invalidates_clean_entries() {
    let defs = vec![def("go", "gofmt", &["*.go"])];
    let st1 = walk_three_files(
        &vec![def("go", "gofmt", &["*.go"]), def("md", "prettier", &["*.md"])],
        t(100),
        t(200),
    );
    // Record a clean entry for a.go under "go".
    let cache = Manifest::new().update_formatters(&defs);
    let post = record_outcome(
        &FileMap { entries: vec![FileEntry { path: "/proj/a.go".to_string(), mtime: t(100) }] },
        &BatchOutcome::Success(vec![t(100)]),
    );
    let cache1 = cache.add_results(&MatchSet {
        sets: vec![FmtFiles { name: "go".to_string(), files: post }],
    });

    // Unchanged definition, unchanged mtime: clean.
    let same = cache1.update_formatters(&defs);
    let filtered_same = same.filter_stale(&st1.matches);
    assert_eq!(count_total_files(&filtered_same), Some(1)); // only b.md under "md" is unknown

    // Changed command, unchanged mtime: a.go is rescheduled.
    let changed = vec![def("go", "gofmt -s", &["*.go"])];
    let inval = cache1.update_formatters(&changed);
    let st2 = walk_three_files(
        &vec![def("go", "gofmt -s", &["*.go"]), def("md", "prettier", &["*.md"])],
        t(100),
        t(200),
    );
    let filtered_changed = inval.filter_stale(&st2.matches);
    assert!(files_of(&filtered_changed, "go").contains(&"/proj/a.go".to_string()));
}

#[test]
fn mtime_change_drives_staleness() {
    let defs = vec![def("go", "gofmt", &["*.go"])];
    let cache = Manifest::new().update_formatters(&defs);
    let pre = FileMap { entries: vec![FileEntry { path: "/proj/a.go".to_string(), mtime: t(100) }] };
    let cache1 = cache.add_results(&MatchSet {
        sets: vec![FmtFiles { name: "go".to_string(), files: pre }],
    });

    // Edited externally: observed mtime differs from the cached one.
    let walk_edited = MatchSet {
        sets: vec![FmtFiles {
            name: "go".to_string(),
            files: FileMap { entries: vec![FileEntry { path: "/proj/a.go".to_string(), mtime: t(101) }] },
        }],
    };
    let filtered = cache1.filter_stale(&walk_edited);
    assert!(files_of(&filtered, "go").contains(&"/proj/a.go".to_string()));

    // Untouched: identical mtime, filtered as clean.
    let walk_same = MatchSet {
        sets: vec![FmtFiles {
            name: "go".to_string(),
            files: FileMap { entries: vec![FileEntry { path: "/proj/a.go".to_string(), mtime: t(100) }] },
        }],
    };
    let filtered_same = cache1.filter_stale(&walk_same);
    assert!(!files_of(&filtered_same, "go").contains(&"/proj/a.go".to_string()));
    assert_eq!(count_total_files(&filtered_same), Some(0));
}

#[test]
fn failed_batch_keeps_pre_run_mtimes() {
    let batch = FileMap {
        entries: vec![
            FileEntry { path: "/proj/a.go".to_string(), mtime: t(100) },
            FileEntry { path: "/proj/b.go".to_string(), mtime: t(110) },
        ],
    };
    let recorded = record_outcome(&batch, &BatchOutcome::Failure);
    assert_eq!(recorded.entries.len(), 2);
    assert_eq!(recorded.get(&"/proj/a.go".to_string()), Some(t(100)));
    assert_eq!(recorded.get(&"/proj/b.go".to_string()), Some(t(110)));

    // The failed paths go into the cache with those walk-time mtimes, so
    // a later edit (differing mtime) schedules them again.
    let defs = vec![def("go", "gofmt", &["*.go"])];
    let cache = Manifest::new()
        .update_formatters(&defs)
        .add_results(&MatchSet { sets: vec![FmtFiles { name: "go".to_string(), files: recorded }] });
    let walk2 = MatchSet {
        sets: vec![FmtFiles {
            name: "go".to_string(),
            files: FileMap { entries: vec![FileEntry { path: "/proj/a.go".to_string(), mtime: t(120) }] },
        }],
    };
    let filtered = cache.filter_stale(&walk2);
    assert!(files_of(&filtered, "go").contains(&"/proj/a.go".to_string()));
}

#[test]
fn failed_batch_with_untouched_file_is_clean_next_run() {
    // A failed batch records the walk-time mtimes. When the failed
    // formatter left a file untouched, the next walk observes that same
    // mtime, so the entry is filtered as clean: only a moved mtime (or a
    // config change, or a cache clear) schedules it again.
    let batch = FileMap {
        entries: vec![FileEntry { path: "/proj/a.go".to_string(), mtime: t(100) }],
    };
    let recorded = record_outcome(&batch, &BatchOutcome::Failure);
    let defs = vec![def("go", "gofmt", &["*.go"])];
    let cache = Manifest::new()
        .update_formatters(&defs)
        .add_results(&MatchSet { sets: vec![FmtFiles { name: "go".to_string(), files: recorded }] });
    let walk2 = MatchSet {
        sets: vec![FmtFiles {
            name: "go".to_string(),
            files: FileMap { entries: vec![FileEntry { path: "/proj/a.go".to_string(), mtime: t(100) }] },
        }],
    };
    let filtered = cache.filter_stale(&walk2);
    assert_eq!(count_total_files(&filtered), Some(0));
}

#[test]
fn fan_out_puts_file_in_both_batches() {
    let defs = vec![def("go", "gofmt", &["*.go"]), def("all", "generic", &["*"])];
    let mut st = WalkState::new_for(&names(&defs));
    // One file matches both formatters.
    st.classify_file(&"/proj/a.go".to_string(), t(100), &vec![true, true]);
    assert_eq!(st.traversed, 1);
    assert_eq!(st.matched, 2);

    let cache = Manifest::new().update_formatters(&defs);
    let filtered = cache.filter_stale(&st.matches);
    assert_eq!(
        batch_paths(files_of(&filtered, "go")),
        vec!["/proj/a.go".to_string()]
    );
    assert_eq!(
        batch_paths(files_of(&filtered, "all")),
        vec!["/proj/a.go".to_string()]
    );
}

#[test]
fn fail_on_change_gating() {
    assert_eq!(run_outcome(1, true), RunOutcome::ChangeDetected);
    assert_eq!(run_outcome(2, true), RunOutcome::ChangeDetected);
    assert_eq!(run_outcome(0, true), RunOutcome::Success);
    assert_eq!(run_outcome(1, false), RunOutcome::Success);
    assert_eq!(run_outcome(0, false), RunOutcome::Success);
}

#[test]
fn success_records_post_run_mtimes() {
    let batch = FileMap {
        entries: vec![
            FileEntry { path: "/proj/a.go".to_string(), mtime: t(100) },
            FileEntry { path: "/proj/b.go".to_string(), mtime: t(110) },
        ],
    };
    let recorded = record_outcome(&batch, &BatchOutcome::Success(vec![t(105), t(110)]));
    assert_eq!(recorded.get(&"/proj/a.go".to_string()), Some(t(105)));
    assert_eq!(recorded.get(&"/proj/b.go".to_string()), Some(t(110)));
    // One of the two files actually changed.
    let pre = MatchSet { sets: vec![FmtFiles { name: "go".to_string(), files: batch }] };
    let post = MatchSet { sets: vec![FmtFiles { name: "go".to_string(), files: recorded }] };
    assert_eq!(count_reformatted(&pre, &post), Some(1));
}

#[test]
fn empty_match_set_counts_zero() {
    let ms = MatchSet { sets: Vec::new() };
    assert_eq!(count_total_files(&ms), Some(0));
    assert_eq!(count_reformatted(&ms, &MatchSet { sets: Vec::new() }), Some(0));
}
