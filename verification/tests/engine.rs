use rcrawl::engine::{search_tree, should_descend, SearchOutcome};
use rcrawl::matcher::MatchSpec;
use rcrawl::printer::PathPrinter;
use rcrawl::tree::{Entry, FsNode};

fn dir(entries: Vec<Entry>) -> FsNode {
    FsNode::Dir(entries)
}

fn entry(name: &str, node: FsNode) -> Entry {
    Entry { name: String::from(name), node }
}

fn file(name: &str) -> Entry {
    entry(name, FsNode::File)
}

fn run(
    root: FsNode,
    query: &str,
    use_pattern: bool,
    include_hidden: bool,
    max_depth: u8,
    max_items: u32,
    verbose: bool,
) -> SearchOutcome {
    let m = MatchSpec::build(query, use_pattern).unwrap();
    search_tree(
        &String::from("/root"),
        root,
        &m,
        include_hidden,
        max_depth,
        max_items,
        verbose,
    )
}

#[test]
fn single_exact_match_is_found() {
    // one file directly under the root, searched for by its exact name
    let tree = dir(vec![file("target.txt"), file("other.txt")]);
    let out = run(tree, "target.txt", false, false, 255, 1, false);
    assert_eq!(out.matched, vec![String::from("/root/target.txt")]);
    assert!(out.denied.is_empty());
    let printer = PathPrinter::new(true, "/root");
    assert_eq!(printer.format_path(&out.matched[0]), "/target.txt");
}

#[test]
fn anchored_pattern_selects_whole_names_only() {
    let tree = dir(vec![file("foo123.log"), file("foo.log.bak")]);
    let out = run(tree, "foo.*\\.log", true, false, 255, 100, false);
    assert_eq!(out.matched, vec![String::from("/root/foo123.log")]);
}

#[test]
fn depth_bound_hides_deeper_entries() {
    // root/a/b/c with everything named the same: only depth one is in reach
    let tree = dir(vec![entry(
        "hit",
        dir(vec![entry("hit", dir(vec![file("hit")]))]),
    )]);
    let out = run(tree, "hit", false, false, 1, 100, false);
    assert_eq!(out.matched, vec![String::from("/root/hit")]);
}

#[test]
fn unbounded_depth_reaches_everything() {
    let tree = dir(vec![entry(
        "hit",
        dir(vec![entry("hit", dir(vec![file("hit")]))]),
    )]);
    let out = run(tree, "hit", false, false, 255, 100, false);
    assert_eq!(
        out.matched,
        vec![
            String::from("/root/hit"),
            String::from("/root/hit/hit"),
            String::from("/root/hit/hit/hit"),
        ]
    );
}

#[test]
fn match_cap_limits_the_emitted_count() {
    let tree = dir(vec![file("a.log"), file("b.log"), file("c.log"), file("d.log")]);
    let out = run(tree, ".*\\.log", true, false, 255, 2, false);
    assert_eq!(out.matched.len(), 2);
    let out_all = run(
        dir(vec![file("a.log"), file("b.log"), file("c.log"), file("d.log")]),
        ".*\\.log",
        true,
        false,
        255,
        100,
        false,
    );
    assert_eq!(out_all.matched.len(), 4);
    let out_zero = run(
        dir(vec![file("a.log"), file("b.log")]),
        ".*\\.log",
        true,
        false,
        255,
        0,
        false,
    );
    assert!(out_zero.matched.is_empty());
}

#[test]
fn denied_directory_is_skipped_and_reported_only_when_verbose() {
    let tree = || {
        dir(vec![
            entry("locked", FsNode::DeniedDir),
            entry("open", dir(vec![file("hit")])),
        ])
    };
    let quiet = run(tree(), "hit", false, false, 255, 100, false);
    assert_eq!(quiet.matched, vec![String::from("/root/open/hit")]);
    assert!(quiet.denied.is_empty());
    let loud = run(tree(), "hit", false, false, 255, 100, true);
    assert_eq!(loud.matched, vec![String::from("/root/open/hit")]);
    assert_eq!(loud.denied, vec![String::from("/root/locked")]);
}

#[test]
fn hidden_entries_are_not_traversed_but_can_still_match() {
    let tree = || {
        dir(vec![
            entry(".git", dir(vec![file("hit")])),
            entry("Library", dir(vec![file("hit")])),
            entry("src", dir(vec![file("hit")])),
        ])
    };
    let out = run(tree(), "hit", false, false, 255, 100, false);
    assert_eq!(out.matched, vec![String::from("/root/src/hit")]);
    // the hidden entry itself is still tested against the query
    let named = run(tree(), ".git", false, false, 255, 100, false);
    assert_eq!(named.matched, vec![String::from("/root/.git")]);
    let reserved = run(tree(), "Library", false, false, 255, 100, false);
    assert_eq!(reserved.matched, vec![String::from("/root/Library")]);
    // with hidden entries included, everything is reachable
    let all = run(tree(), "hit", false, true, 255, 100, false);
    assert_eq!(all.matched.len(), 3);
}

#[test]
fn filter_governs_recursion_only() {
    assert!(should_descend(&String::from("src"), false));
    assert!(!should_descend(&String::from(".hidden"), false));
    assert!(!should_descend(&String::from("Library"), false));
    assert!(should_descend(&String::from("Libraries"), false));
    assert!(should_descend(&String::from(".hidden"), true));
    assert!(should_descend(&String::from("Library"), true));
}

#[test]
fn repeated_runs_give_the_same_matches() {
    let tree = || {
        dir(vec![
            entry("a", dir(vec![file("x.log"), file("y.log")])),
            entry("b", dir(vec![file("z.log")])),
            file("w.log"),
        ])
    };
    let first = run(tree(), ".*\\.log", true, false, 255, 100, false);
    let second = run(tree(), ".*\\.log", true, false, 255, 100, false);
    let mut a = first.matched.clone();
    let mut b = second.matched.clone();
    a.sort();
    b.sort();
    assert_eq!(a, b);
    assert_eq!(first.matched.len(), 4);
}

#[test]
fn file_root_yields_nothing() {
    let out = run(FsNode::File, "anything", false, false, 255, 100, false);
    assert!(out.matched.is_empty());
    assert!(out.denied.is_empty());
}
