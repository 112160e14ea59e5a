use rcrawl::config::{Config, DEFAULT_MAX_DEPTH, DEFAULT_MAX_ITEMS, DEFAULT_NUM_THREADS};
use rcrawl::engine::search_tree;
use rcrawl::matcher::MatchSpec;
use rcrawl::tree::{Entry, FsNode};

fn entry(name: &str, node: FsNode) -> Entry {
    Entry { name: String::from(name), node }
}

#[test]
fn depth_zero_finds_nothing() {
    let tree = FsNode::Dir(vec![entry("hit", FsNode::File)]);
    let m = MatchSpec::build("hit", false).unwrap();
    let out = search_tree(&String::from("/root"), tree, &m, false, 0, 100, false);
    assert!(out.matched.is_empty());
}

#[test]
fn denied_root_is_reported_when_verbose() {
    let m = MatchSpec::build("x", false).unwrap();
    let out = search_tree(&String::from("/root"), FsNode::DeniedDir, &m, false, 255, 100, true);
    assert!(out.matched.is_empty());
    assert_eq!(out.denied, vec![String::from("/root")]);
}

#[test]
fn denied_behind_hidden_directory_stays_unreported() {
    let tree = FsNode::Dir(vec![entry(
        ".cache",
        FsNode::Dir(vec![entry("locked", FsNode::DeniedDir)]),
    )]);
    let m = MatchSpec::build("x", false).unwrap();
    let out = search_tree(&String::from("/root"), tree, &m, false, 255, 100, true);
    assert!(out.denied.is_empty());
}

#[test]
fn pattern_metacharacters_behave_as_patterns() {
    let m = MatchSpec::build("a.b", true).unwrap();
    assert!(m.matches_name(&String::from("axb")));
    assert!(m.matches_name(&String::from("a.b")));
    assert!(!m.matches_name(&String::from("ab")));
    let lit = MatchSpec::build("a.b", false).unwrap();
    assert!(!lit.matches_name(&String::from("axb")));
    assert!(lit.matches_name(&String::from("a.b")));
}

#[test]
fn empty_exact_query_matches_no_name() {
    let m = MatchSpec::build("", false).unwrap();
    assert!(!m.matches_name(&String::from("a")));
    assert!(m.matches_name(&String::from("")));
}

#[test]
fn duplicate_names_within_depth_are_each_counted() {
    let tree = FsNode::Dir(vec![
        entry("a", FsNode::Dir(vec![entry("hit", FsNode::File)])),
        entry("b", FsNode::Dir(vec![entry("hit", FsNode::File)])),
    ]);
    let m = MatchSpec::build("hit", false).unwrap();
    let out = search_tree(&String::from("/root"), tree, &m, false, 255, 100, false);
    let mut got = out.matched.clone();
    got.sort();
    assert_eq!(got, vec![String::from("/root/a/hit"), String::from("/root/b/hit")]);
}

#[test]
fn config_defaults_are_effectively_unbounded() {
    assert_eq!(DEFAULT_MAX_DEPTH, u8::MAX);
    assert_eq!(DEFAULT_MAX_ITEMS, u32::MAX);
    assert_eq!(DEFAULT_NUM_THREADS, 16);
    let cfg = Config {
        verbose: false,
        relative: false,
        all: false,
        max_items: DEFAULT_MAX_ITEMS,
        max_depth: DEFAULT_MAX_DEPTH,
        root_dir: String::from("."),
        match_expr: String::from("hit"),
        regex: false,
        num_threads: DEFAULT_NUM_THREADS,
    };
    assert_eq!(cfg.match_expr, "hit");
    assert!(!cfg.regex);
}
