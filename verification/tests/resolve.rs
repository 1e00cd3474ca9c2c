use treefmt::pathres::{expand_path, is_abs_path, is_under_root, resolve_paths};

#[test]
fn expand_keeps_absolute_paths() {
    let p = expand_path(&"/proj/a.go".to_string(), &"/work".to_string());
    assert_eq!(p, "/proj/a.go".to_string());
}

#[test]
fn expand_joins_relative_paths() {
    let p = expand_path(&"src/a.go".to_string(), &"/proj".to_string());
    assert_eq!(p, "/proj/src/a.go".to_string());
}

#[test]
fn absolute_path_test() {
    assert!(is_abs_path(&"/proj".to_string()));
    assert!(!is_abs_path(&"proj".to_string()));
    assert!(!is_abs_path(&"".to_string()));
}

#[test]
fn containment_is_component_wise() {
    assert!(is_under_root(&"/proj".to_string(), &"/proj".to_string()));
    assert!(is_under_root(&"/proj/a.go".to_string(), &"/proj".to_string()));
    assert!(is_under_root(&"/proj/sub/a.go".to_string(), &"/proj".to_string()));
    assert!(!is_under_root(&"/project/a.go".to_string(), &"/proj".to_string()));
    assert!(!is_under_root(&"/other/a.go".to_string(), &"/proj".to_string()));
    assert!(is_under_root(&"/a.go".to_string(), &"/".to_string()));
    assert!(is_under_root(&"/proj/a.go".to_string(), &"/proj/".to_string()));
    assert!(!is_under_root(&"/pro".to_string(), &"/proj".to_string()));
    assert!(!is_under_root(&"/proj/../x".to_string(), &"/proj".to_string()));
    assert!(!is_under_root(&"/proj/sub/..".to_string(), &"/proj".to_string()));
    assert!(is_under_root(&"/proj/a..b".to_string(), &"/proj".to_string()));
}

/// A target outside the project root never survives resolution: it is
/// returned on the dropped list so the caller always emits a diagnostic
/// for it.
#[test]
fn out_of_root_paths_are_dropped_with_notice() {
    let paths = vec![
        "a.go".to_string(),
        "/proj/b.md".to_string(),
        "/other/c.txt".to_string(),
        "../escape.txt".to_string(),
    ];
    let (kept, dropped) = resolve_paths(&paths, &"/proj/sub".to_string(), &"/proj".to_string());
    assert_eq!(
        kept,
        vec!["/proj/sub/a.go".to_string(), "/proj/b.md".to_string()]
    );
    assert_eq!(
        dropped,
        vec!["/other/c.txt".to_string(), "../escape.txt".to_string()]
    );
}

#[test]
fn all_paths_inside_root_drop_nothing() {
    let paths = vec!["x".to_string(), "y/z".to_string()];
    let (kept, dropped) = resolve_paths(&paths, &"/proj".to_string(), &"/proj".to_string());
    assert_eq!(kept.len(), 2);
    assert!(dropped.is_empty());
}
