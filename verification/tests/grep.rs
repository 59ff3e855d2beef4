use grepr::aggregate::RenderedResult;
use grepr::aggregate::aggregate;
use grepr::aggregate::count_by_key;
use grepr::aggregate::line_key;
use grepr::aggregate::join_lines;
use grepr::aggregate::render_counts;
use grepr::aggregate::SourceCount;
use grepr::pattern::CompiledPattern;
use grepr::pattern::ConfigError;
use grepr::pattern::invalid_pattern_message;
use grepr::search::SearchConfig;
use grepr::search::SourceLines;
use grepr::search::search_all;
use grepr::walk::WalkEntry;
use grepr::walk::select_files;

fn source(id: &str, lines: &[&str]) -> SourceLines {
    SourceLines {
        id: id.to_string(),
        lines: lines.iter().map(|s| s.to_string()).collect(),
    }
}

fn expect_lines(r: RenderedResult) -> Vec<String> {
    match r {
        RenderedResult::Lines(v) => v,
        other => panic!("expected a listing, got {:?}", other),
    }
}

#[test]
fn single_file_listing() {
    let pattern = CompiledPattern::compile("foo", false).unwrap();
    let sources = vec![source("a.txt", &["foo", "bar", "foobar"])];
    let r = search_all(&pattern, false, false, &sources);
    assert_eq!(expect_lines(r), vec!["foo", "foobar"]);
}

#[test]
fn single_file_inverted() {
    let pattern = CompiledPattern::compile("foo", false).unwrap();
    let sources = vec![source("a.txt", &["foo", "bar", "foobar"])];
    let r = search_all(&pattern, true, false, &sources);
    assert_eq!(expect_lines(r), vec!["bar"]);
}

#[test]
fn invert_partitions_the_lines() {
    // every line lands in exactly one of the two listings
    let pattern = CompiledPattern::compile("foo", false).unwrap();
    let sources = vec![source("a.txt", &["foo", "bar", "foobar"])];
    let kept = expect_lines(search_all(&pattern, false, false, &sources));
    let dropped = expect_lines(search_all(&pattern, true, false, &sources));
    assert_eq!(kept.len() + dropped.len(), 3);
    for line in ["foo", "bar", "foobar"] {
        assert!(kept.iter().any(|l| l == line) != dropped.iter().any(|l| l == line));
    }
}

#[test]
fn count_equals_listing_length() {
    let pattern = CompiledPattern::compile("foo", false).unwrap();
    let sources = vec![source("a.txt", &["foo", "bar", "foobar"])];
    let listing = expect_lines(search_all(&pattern, false, false, &sources));
    match search_all(&pattern, false, true, &sources) {
        RenderedResult::Total(n) => assert_eq!(n, listing.len()),
        other => panic!("expected a total, got {:?}", other),
    }
}

#[test]
fn two_file_counts() {
    let pattern = CompiledPattern::compile("y", false).unwrap();
    let sources = vec![source("a.txt", &["x", "y"]), source("b.txt", &["y", "z"])];
    match search_all(&pattern, false, true, &sources) {
        RenderedResult::PerSource(cs) => {
            // the count lines form a set; their order is left open
            assert_eq!(cs.len(), 2);
            assert!(cs.iter().any(|c| c.key == "a.txt" && c.count == 1));
            assert!(cs.iter().any(|c| c.key == "b.txt" && c.count == 1));
        },
        other => panic!("expected per-source counts, got {:?}", other),
    }
}

#[test]
fn multi_source_listing_is_prefixed() {
    let pattern = CompiledPattern::compile("y", false).unwrap();
    let sources = vec![source("a.txt", &["x", "y"]), source("b.txt", &["y", "z"])];
    let r = search_all(&pattern, false, false, &sources);
    assert_eq!(expect_lines(r), vec!["a.txt:y", "b.txt:y"]);
}

#[test]
fn case_insensitive_matching() {
    let sensitive = CompiledPattern::compile("abc", false).unwrap();
    let insensitive = CompiledPattern::compile("abc", true).unwrap();
    assert!(!sensitive.is_match("ABCxyz"));
    assert!(insensitive.is_match("ABCxyz"));
}

#[test]
fn invalid_pattern_is_refused() {
    let r = CompiledPattern::compile("(", false);
    assert_eq!(r.unwrap_err(), ConfigError::InvalidPattern);
    assert_eq!(invalid_pattern_message("("), "Invalid pattern \"(\"");
}

#[test]
fn config_compiles_its_pattern() {
    let cfg = SearchConfig {
        pattern: "(".to_string(),
        insensitive: false,
        invert: false,
        count: false,
        recursive: false,
        paths: vec!["-".to_string()],
    };
    assert_eq!(cfg.compile().unwrap_err(), ConfigError::InvalidPattern);
    let cfg = SearchConfig { pattern: "a+b".to_string(), ..cfg };
    assert!(cfg.compile().is_ok());
}

#[test]
fn empty_matches_never_listed() {
    // the empty pattern matches every line, the empty one included, but
    // empty matched lines are dropped from the listing
    let pattern = CompiledPattern::compile("", false).unwrap();
    let sources = vec![source("a.txt", &["", "x", ""])];
    let r = search_all(&pattern, false, false, &sources);
    assert_eq!(expect_lines(r), vec!["x"]);
}

#[test]
fn no_matches_render_nothing() {
    let pattern = CompiledPattern::compile("zzz", false).unwrap();
    let sources = vec![source("a.txt", &["x", "y"])];
    assert!(matches!(
        search_all(&pattern, false, false, &sources),
        RenderedResult::NoOutput
    ));
    assert!(matches!(
        search_all(&pattern, false, true, &sources),
        RenderedResult::NoOutput
    ));
}

#[test]
fn directory_root_without_recursion_yields_nothing() {
    let entries = vec![
        WalkEntry { path: "root".to_string(), is_file: false, depth: 0 },
        WalkEntry { path: "root/a.txt".to_string(), is_file: true, depth: 1 },
        WalkEntry { path: "root/sub".to_string(), is_file: false, depth: 1 },
        WalkEntry { path: "root/sub/b.txt".to_string(), is_file: true, depth: 2 },
    ];
    let flat = select_files(&entries, false);
    assert!(flat.is_empty());
    let deep = select_files(&entries, true);
    assert_eq!(deep, vec!["root/a.txt", "root/sub/b.txt"]);
}

#[test]
fn file_root_is_selected_without_recursion() {
    let entries = vec![WalkEntry { path: "a.txt".to_string(), is_file: true, depth: 0 }];
    assert_eq!(select_files(&entries, false), vec!["a.txt"]);
}

#[test]
fn counts_group_on_text_before_first_colon() {
    assert_eq!(line_key("a.txt:x:y"), "a.txt");
    assert_eq!(line_key("plain"), "plain");
    assert_eq!(line_key(":lead"), "");
    let lines = vec![
        "a.txt:x:y".to_string(),
        "b.txt:z".to_string(),
        "a.txt:w".to_string(),
    ];
    let cs = count_by_key(&lines);
    assert_eq!(cs.len(), 2);
    assert!(cs.iter().any(|c| c.key == "a.txt" && c.count == 2));
    assert!(cs.iter().any(|c| c.key == "b.txt" && c.count == 1));
}

#[test]
fn listing_joins_with_newlines() {
    assert_eq!(join_lines(&vec![]), "");
    assert_eq!(join_lines(&vec!["one".to_string()]), "one");
    assert_eq!(
        join_lines(&vec!["one".to_string(), "two".to_string(), "three".to_string()]),
        "one\ntwo\nthree"
    );
}

#[test]
fn count_lines_render_key_colon_count() {
    let cs = vec![
        SourceCount { key: "a.txt".to_string(), count: 1 },
        SourceCount { key: "b.txt".to_string(), count: 12 },
    ];
    assert_eq!(render_counts(&cs), vec!["a.txt:1", "b.txt:12"]);
}

#[test]
fn aggregate_drops_empty_lines_before_counting() {
    let matched = vec!["".to_string(), "x".to_string(), "".to_string()];
    match aggregate(&matched, false, true) {
        RenderedResult::Total(n) => assert_eq!(n, 1),
        other => panic!("expected a total, got {:?}", other),
    }
}
