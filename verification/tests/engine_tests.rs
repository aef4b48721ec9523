use bfs_find::engine::{EntryType, Searcher};

/// One scripted directory tree entry: whether the path is a directory and,
/// if it is, the names listed in it. A path absent from the script stands
/// for an entry whose metadata cannot be read.
type Entry<'a> = (&'a str, bool, &'a [&'a str]);

/// Drives a searcher against a scripted tree, the way the command-line
/// front end drives it against the filesystem, and collects what it
/// reports.
fn run(tree: &[Entry], start: &str, pattern: &str, max_depth: usize, filter: EntryType) -> Vec<String> {
    let mut searcher = Searcher::new(start, pattern, max_depth, filter).expect("valid pattern");
    let mut results: Vec<String> = Vec::new();
    while let Some(path) = searcher.front() {
        let meta = tree.iter().find(|e| e.0 == path).map(|e| e.1);
        let mut children: Vec<String> = Vec::new();
        if let Some(is_dir) = meta {
            if searcher.wants_children(is_dir) {
                if let Some(entry) = tree.iter().find(|e| e.0 == path) {
                    for name in entry.2 {
                        children.push((*name).to_string());
                    }
                }
            }
        }
        if let Some(hit) = searcher.step(meta, &children) {
            results.push(hit);
        }
    }
    results
}

const SAMPLE: &[Entry] = &[
    ("root", true, &["a.txt", "sub"]),
    ("root/a.txt", false, &[]),
    ("root/sub", true, &["b.txt", "c.log"]),
    ("root/sub/b.txt", false, &[]),
    ("root/sub/c.log", false, &[]),
];

#[test]
fn scenario_txt_files_depth_one() {
    let results = run(SAMPLE, "root", r".*\.txt$", 1, EntryType::File);
    assert_eq!(results, vec!["root/a.txt".to_string()]);
}

#[test]
fn deeper_bound_reaches_the_subdirectory() {
    let results = run(SAMPLE, "root", r".*\.txt$", 2, EntryType::File);
    assert_eq!(results, vec!["root/a.txt".to_string(), "root/sub/b.txt".to_string()]);
}

#[test]
fn directory_filter_reports_only_directories() {
    let results = run(SAMPLE, "root", r".*", 2, EntryType::Directory);
    assert_eq!(results, vec!["root".to_string(), "root/sub".to_string()]);
}

#[test]
fn match_all_filter_walks_in_breadth_first_order() {
    let results = run(SAMPLE, "root", r".*", 2, EntryType::All);
    assert_eq!(
        results,
        vec![
            "root".to_string(),
            "root/a.txt".to_string(),
            "root/sub".to_string(),
            "root/sub/b.txt".to_string(),
            "root/sub/c.log".to_string(),
        ],
    );
}

#[test]
fn depth_zero_considers_only_the_start_entry() {
    assert_eq!(
        run(SAMPLE, "root/a.txt", r".*\.txt$", 0, EntryType::All),
        vec!["root/a.txt".to_string()],
    );
    assert_eq!(
        run(SAMPLE, "root/a.txt", r".*\.txt$", 0, EntryType::File),
        vec!["root/a.txt".to_string()],
    );
    assert_eq!(run(SAMPLE, "root/a.txt", r".*\.txt$", 0, EntryType::Directory), Vec::<String>::new());
    assert_eq!(run(SAMPLE, "root", r".*", 0, EntryType::All), vec!["root".to_string()]);
}

#[test]
fn invalid_pattern_is_rejected() {
    assert!(Searcher::new("root", "[unclosed", 1, EntryType::All).is_none());
    assert!(Searcher::new("root", r".*\.txt$", 1, EntryType::All).is_some());
}

#[test]
fn missing_start_yields_nothing() {
    let results = run(SAMPLE, "no-such-dir", r".*", 3, EntryType::All);
    assert_eq!(results, Vec::<String>::new());
}

#[test]
fn unreadable_entry_is_skipped_silently() {
    let tree: &[Entry] = &[
        ("r", true, &["a", "b"]),
        // "r/a" is missing: its metadata cannot be read.
        ("r/b", false, &[]),
    ];
    let results = run(tree, "r", r".*", 1, EntryType::All);
    assert_eq!(results, vec!["r".to_string(), "r/b".to_string()]);
}

#[test]
fn pattern_is_matched_against_the_base_name() {
    // The pattern anchors on the whole name: the parent directory's name
    // must not leak into the match.
    let tree: &[Entry] = &[
        ("dir", true, &["ab", "ba"]),
        ("dir/ab", false, &[]),
        ("dir/ba", false, &[]),
    ];
    let results = run(tree, "dir", r"^a", 1, EntryType::File);
    assert_eq!(results, vec!["dir/ab".to_string()]);
}

#[test]
fn running_twice_gives_the_same_results() {
    let first = run(SAMPLE, "root", r".*", 2, EntryType::All);
    let second = run(SAMPLE, "root", r".*", 2, EntryType::All);
    assert_eq!(first, second);
}

#[test]
fn results_never_exceed_the_depth_bound() {
    for depth in 0..4 {
        for path in run(SAMPLE, "root", r".*", depth, EntryType::All) {
            let segments = path.split('/').count() - 1;
            assert!(segments <= depth, "{} lies deeper than {}", path, depth);
        }
    }
}

#[test]
fn empty_pattern_matches_every_name() {
    let results = run(SAMPLE, "root", "", 1, EntryType::All);
    assert_eq!(results, vec!["root".to_string(), "root/a.txt".to_string(), "root/sub".to_string()]);
}

#[test]
fn root_path_matches_as_the_empty_name() {
    // "/" has no extractable base name; only a pattern that accepts the
    // empty string can match it.
    let tree: &[Entry] = &[("/", true, &["etc"]), ("/etc", true, &[])];
    assert_eq!(run(tree, "/", r".*", 0, EntryType::All), vec!["/".to_string()]);
    assert_eq!(run(tree, "/", r"^.+$", 0, EntryType::All), Vec::<String>::new());
}

#[test]
fn front_and_done_follow_the_queue() {
    let mut searcher = Searcher::new("root", r".*", 1, EntryType::All).expect("valid pattern");
    assert!(!searcher.is_done());
    assert_eq!(searcher.front(), Some("root".to_string()));
    assert!(searcher.wants_children(true));
    assert!(!searcher.wants_children(false));
    let hit = searcher.step(Some(true), &vec!["x".to_string()]);
    assert_eq!(hit, Some("root".to_string()));
    assert_eq!(searcher.front(), Some("root/x".to_string()));
    // At the depth bound a directory is still judged but not expanded.
    assert!(!searcher.wants_children(true));
    let hit = searcher.step(Some(true), &Vec::new());
    assert_eq!(hit, Some("root/x".to_string()));
    assert!(searcher.is_done());
    assert_eq!(searcher.front(), None);
    // A step on the empty queue changes nothing and reports nothing.
    assert_eq!(searcher.step(Some(false), &Vec::new()), None);
    assert!(searcher.is_done());
}
