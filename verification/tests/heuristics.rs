use maclean::catalog::clean_electron;
use maclean::entry::CleanEntry;
use maclean::stale::{is_stale, max_activity, name_matches, stale_candidate, ActivityTimes};
use maclean::strutil::{contains_char, contains_substr, str_lt};
use maclean::versions::{jetbrains_candidates, split_app_version};

fn names(v: &[&str]) -> Vec<String> {
    v.iter().map(|s| s.to_string()).collect()
}

#[test]
fn split_separates_alphabetic_prefix_from_version() {
    let (app, ver) = split_app_version(&"PyCharm2024.3".to_string());
    assert_eq!(app, "PyCharm");
    assert_eq!(ver, "2024.3");
    let (app, ver) = split_app_version(&"Rider".to_string());
    assert_eq!(app, "Rider");
    assert_eq!(ver, "");
    let (app, ver) = split_app_version(&"2024.3".to_string());
    assert_eq!(app, "");
    assert_eq!(ver, "2024.3");
}

#[test]
fn version_comparison_is_lexicographic() {
    // The documented quirk: "2.0" beats "10.0" because the comparison is by
    // character, not by number.
    assert!(str_lt(&"10.0".to_string(), &"2.0".to_string()));
    assert!(!str_lt(&"2.0".to_string(), &"10.0".to_string()));
    assert!(str_lt(&"2024.2".to_string(), &"2024.3".to_string()));
    assert!(str_lt(&"2024.3".to_string(), &"2024.3.1".to_string()));
    assert!(!str_lt(&"2024.3".to_string(), &"2024.3".to_string()));
}

#[test]
fn pruning_retains_the_lexicographic_maximum() {
    let root = "/home/u/apps".to_string();
    let out = jetbrains_candidates(&root, &names(&["Foo1.0", "Foo2.0", "Foo10.0"]));
    // "2.0" is retained; "1.0" and "10.0" become old-version candidates.
    let paths: Vec<&str> = out.iter().map(|e| e.path.as_str()).collect();
    assert_eq!(paths, vec!["/home/u/apps/Foo1.0", "/home/u/apps/Foo10.0"]);
    for e in &out {
        assert_eq!(e.score, 80);
        assert_eq!(e.size, None);
        assert!(!e.selected);
    }
}

#[test]
fn caches_root_adds_three_subpaths_per_retained_version() {
    // A caches root with only "Foo1.0" and "Foo1.5": one old-version entry
    // for "Foo1.0" and three derived cache sub-paths for "Foo1.5".
    let root = "/home/u/Library/Caches/JetBrains".to_string();
    let out = jetbrains_candidates(&root, &names(&["Foo1.0", "Foo1.5"]));
    assert_eq!(out.len(), 4);
    assert_eq!(out[0].path, "/home/u/Library/Caches/JetBrains/Foo1.0");
    assert_eq!(out[0].description, "Foo 的旧版本 1.0");
    assert_eq!(
        out[1].path,
        "/home/u/Library/Caches/JetBrains/Foo1.5/intellij-rust/crates-local-index-cargo-home"
    );
    assert_eq!(
        out[2].path,
        "/home/u/Library/Caches/JetBrains/Foo1.5/intellij-rust/macros"
    );
    assert_eq!(out[3].path, "/home/u/Library/Caches/JetBrains/Foo1.5/caches");
    assert_eq!(out[1].description, "Foo 的 Rust 插件缓存");
    assert_eq!(out[3].description, "Foo 的 IDE 缓存");
}

#[test]
fn non_caches_root_adds_no_subpaths() {
    let root = "/home/u/Library/Application Support/JetBrains".to_string();
    let out = jetbrains_candidates(&root, &names(&["Foo1.0", "Foo1.5"]));
    assert_eq!(out.len(), 1);
    assert_eq!(out[0].path, "/home/u/Library/Application Support/JetBrains/Foo1.0");
}

#[test]
fn names_without_dotted_versions_are_ignored() {
    let root = "/r".to_string();
    let out = jetbrains_candidates(&root, &names(&["Foo", "Bar12", "Baz1.0", "consentOptions"]));
    // Only "Baz1.0" is eligible, and a single version is retained outright.
    assert_eq!(out.len(), 0);
}

#[test]
fn substring_and_char_search() {
    assert!(contains_substr(&"/a/Caches/b".to_string(), "Caches"));
    assert!(!contains_substr(&"/a/caches/b".to_string(), "Caches"));
    assert!(contains_char(&"2024.3".to_string(), '.'));
    assert!(!contains_char(&"20243".to_string(), '.'));
}

#[test]
fn electron_root_yields_five_candidates() {
    let mut entries: Vec<CleanEntry> = Vec::new();
    clean_electron(&mut entries, &"/home/u/Code".to_string(), &"VSCode".to_string());
    let paths: Vec<&str> = entries.iter().map(|e| e.path.as_str()).collect();
    assert_eq!(
        paths,
        vec![
            "/home/u/Code/Cache",
            "/home/u/Code/Code Cache",
            "/home/u/Code/GPUCache",
            "/home/u/Code/page_cache",
            "/home/u/Code/logs",
        ]
    );
    assert_eq!(entries[0].description, "VSCode 缓存");
    assert_eq!(entries[4].description, "VSCode 日志");
    assert!(entries.iter().all(|e| e.score == 100 && e.size.is_none() && !e.selected));
}

#[test]
fn staleness_is_strict_at_the_threshold() {
    let threshold = 30 * 24 * 60 * 60;
    let now = 2_000_000_000;
    let at_threshold = ActivityTimes {
        modified: now - threshold,
        accessed: now - threshold,
        created: now - threshold,
    };
    assert!(!is_stale(now, at_threshold, threshold));
    let one_past = ActivityTimes { modified: now - threshold - 1, ..at_threshold };
    assert!(is_stale(now, one_past, threshold));
}

#[test]
fn one_old_signal_is_enough() {
    let threshold = 100;
    let now = 1_000_000;
    let t = ActivityTimes { modified: now, accessed: now, created: now - 101 };
    assert!(is_stale(now, t, threshold));
}

#[test]
fn future_timestamps_count_as_no_age() {
    let t = ActivityTimes { modified: 2_000, accessed: 2_000, created: 2_000 };
    assert!(!is_stale(1_000, t, 100));
}

#[test]
fn max_activity_takes_the_most_recent_of_each_signal() {
    let base = ActivityTimes { modified: 10, accessed: 20, created: 30 };
    let children = vec![
        ActivityTimes { modified: 50, accessed: 5, created: 5 },
        ActivityTimes { modified: 15, accessed: 60, created: 5 },
    ];
    let m = max_activity(base, &children);
    assert_eq!(m, ActivityTimes { modified: 50, accessed: 60, created: 30 });
}

#[test]
fn stale_candidate_builds_the_entry_exactly_when_stale() {
    let children = vec![ActivityTimes { modified: 500, accessed: 400, created: 450 }];
    let base = ActivityTimes { modified: 100, accessed: 100, created: 100 };
    let fresh = stale_candidate(
        &"/p/build".to_string(),
        &"proj".to_string(),
        &"build".to_string(),
        600,
        base,
        &children,
        200,
    );
    assert!(fresh.is_none());
    let old = stale_candidate(
        &"/p/build".to_string(),
        &"proj".to_string(),
        &"build".to_string(),
        800,
        base,
        &children,
        200,
    )
    .unwrap();
    assert_eq!(old.path, "/p/build");
    assert_eq!(old.description, "proj 中长时间不用的 build");
    assert_eq!(old.score, 80);
    assert_eq!(old.size, None);
    assert!(!old.selected);
}

#[test]
fn name_matching_against_target_set() {
    let targets = names(&[".gradle", "out", "build"]);
    assert!(name_matches(&targets, &"build".to_string()));
    assert!(!name_matches(&targets, &"src".to_string()));
}
