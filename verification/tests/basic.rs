use rcrawl::config::{u32_validator, u8_validator};
use rcrawl::counter::MatchCount;
use rcrawl::matcher::MatchSpec;
use rcrawl::printer::PathPrinter;
use rcrawl::queue::{SearchNode, WorkQueue};

#[test]
fn u8_validator_accepts_small_numbers() {
    assert!(u8_validator(String::from("0")).is_ok());
    assert!(u8_validator(String::from("255")).is_ok());
    assert!(u8_validator(String::from("+17")).is_ok());
    assert!(u8_validator(String::from("007")).is_ok());
}

#[test]
fn u8_validator_rejects_bad_input() {
    assert!(u8_validator(String::from("")).is_err());
    assert!(u8_validator(String::from("+")).is_err());
    assert!(u8_validator(String::from("256")).is_err());
    assert!(u8_validator(String::from("-1")).is_err());
    assert!(u8_validator(String::from("12a")).is_err());
    assert!(u8_validator(String::from(" 12")).is_err());
    assert_eq!(
        u8_validator(String::from("x")).unwrap_err(),
        "The value must be a positive integer"
    );
}

#[test]
fn u32_validator_matches_parse_bounds() {
    assert!(u32_validator(String::from("4294967295")).is_ok());
    assert!(u32_validator(String::from("4294967296")).is_err());
    assert!(u32_validator(String::from("123456")).is_ok());
    assert!(u32_validator(String::from("12.5")).is_err());
}

#[test]
fn exact_matcher_is_literal_equality() {
    let m = MatchSpec::build("target.txt", false).unwrap();
    assert!(m.matches_name(&String::from("target.txt")));
    assert!(!m.matches_name(&String::from("target.txt ")));
    assert!(!m.matches_name(&String::from("xtarget.txt")));
    assert!(!m.matches_name(&String::from("target.tx")));
    assert!(!m.matches_name(&String::from("TARGET.TXT")));
}

#[test]
fn pattern_matcher_is_anchored() {
    let m = MatchSpec::build("abc", true).unwrap();
    assert!(m.matches_name(&String::from("abc")));
    assert!(!m.matches_name(&String::from("xabcy")));
    assert!(!m.matches_name(&String::from("abcy")));
    assert!(!m.matches_name(&String::from("xabc")));
}

#[test]
fn pattern_matcher_reports_compile_failure() {
    assert!(MatchSpec::build("foo(bar", true).is_err());
    // a literal query never fails to build, whatever it holds
    assert!(MatchSpec::build("foo(bar", false).is_ok());
}

#[test]
fn printer_strips_root_prefix_only_when_relative() {
    let p = PathPrinter::new(true, "/root/dir");
    assert_eq!(p.format_path(&String::from("/root/dir/a.txt")), "/a.txt");
    let q = PathPrinter::new(false, "/root/dir");
    assert_eq!(q.format_path(&String::from("/root/dir/a.txt")), "/root/dir/a.txt");
}

#[test]
fn counter_grants_up_to_cap_only() {
    let mut c = MatchCount::new();
    assert!(c.try_reserve(2));
    assert!(c.try_reserve(2));
    assert!(!c.try_reserve(2));
    assert_eq!(c.get(), 2);
    assert!(!c.try_reserve(0));
}

#[test]
fn queue_is_first_in_first_out() {
    let mut q: WorkQueue<u32> = WorkQueue::empty();
    assert!(q.is_empty());
    assert_eq!(q.pop_front(), None);
    q.push_back(1);
    q.push_back(2);
    q.push_back(3);
    assert!(!q.is_empty());
    assert_eq!(q.pop_front(), Some(1));
    assert_eq!(q.pop_front(), Some(2));
    assert_eq!(q.pop_front(), Some(3));
    assert!(q.is_empty());
}

#[test]
fn nodes_count_depth_from_zero() {
    let root = SearchNode::root(String::from("/r"));
    assert_eq!(root.depth, 0);
    let a = root.child(&String::from("a"));
    assert_eq!(a.depth, 1);
    assert_eq!(a.path, "/r/a");
    let b = a.child(&String::from("b"));
    assert_eq!(b.depth, 2);
    assert_eq!(b.path, "/r/a/b");
}
