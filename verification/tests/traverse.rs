use fmtwalk::glob::PatternSet;
use fmtwalk::traverse::{join_path, root_file, DirEntry, EntryKind, Traverser};

fn yar_patterns() -> PatternSet {
    let mut set = PatternSet::new();
    set.add("**/*.yar");
    set.add("**/*.yara");
    set
}

fn entry(name: &str, kind: EntryKind) -> DirEntry {
    DirEntry { name: name.to_string(), kind }
}

#[test]
fn join_path_puts_a_slash_between_components() {
    assert_eq!(join_path("", "rule.yar"), "rule.yar");
    assert_eq!(join_path("sub", "rule.yar"), "sub/rule.yar");
    assert_eq!(join_path("a/b", "c"), "a/b/c");
}

#[test]
fn walk_starts_with_the_root() {
    let mut walk = Traverser::new(yar_patterns(), 0);
    assert!(!walk.is_done());
    assert_eq!(walk.depth_limit(), 0);
    assert_eq!(walk.walker_errors(), 0);
    assert_eq!(walk.next_dir(), Some(String::new()));
    assert_eq!(walk.next_dir(), Some(String::new()));
    assert!(!walk.is_done());
}

#[test]
fn depth_zero_stays_in_the_root() {
    let mut walk = Traverser::new(yar_patterns(), 0);
    assert_eq!(walk.next_dir(), Some(String::new()));
    let listing = vec![
        entry("root.yar", EntryKind::File),
        entry("subdir", EntryKind::Dir),
        entry("notes.txt", EntryKind::File),
        entry("socket", EntryKind::Other),
    ];
    let items = walk.expand(&listing);
    assert_eq!(items.len(), 1);
    assert_eq!(items[0].path, "root.yar");
    assert_eq!(items[0].depth, 0);
    assert_eq!(items[0].index, 0);
    assert_eq!(walk.next_dir(), None);
    assert!(walk.is_done());
}

#[test]
fn depth_one_enters_the_first_level_only() {
    let mut walk = Traverser::new(yar_patterns(), 1);
    assert_eq!(walk.next_dir(), Some(String::new()));
    let root = vec![entry("level1", EntryKind::Dir), entry("root.yar", EntryKind::File)];
    let items = walk.expand(&root);
    assert_eq!(items.len(), 1);
    assert_eq!((items[0].path.as_str(), items[0].depth, items[0].index), ("root.yar", 0, 1));
    assert_eq!(walk.next_dir(), Some("level1".to_string()));
    let level1 = vec![entry("level1.yar", EntryKind::File), entry("level2", EntryKind::Dir)];
    let items = walk.expand(&level1);
    assert_eq!(items.len(), 1);
    assert_eq!((items[0].path.as_str(), items[0].depth), ("level1/level1.yar", 1));
    assert_eq!(walk.next_dir(), None);
    assert!(walk.is_done());
}

#[test]
fn directories_are_listed_last_pushed_first() {
    let mut walk = Traverser::new(yar_patterns(), 5);
    walk.next_dir();
    let root = vec![entry("a", EntryKind::Dir), entry("b", EntryKind::Dir)];
    assert!(walk.expand(&root).is_empty());
    assert_eq!(walk.next_dir(), Some("b".to_string()));
    assert!(walk.expand(&vec![entry("c", EntryKind::Dir)]).is_empty());
    assert_eq!(walk.next_dir(), Some("b/c".to_string()));
    assert!(walk.expand(&Vec::new()).is_empty());
    assert_eq!(walk.next_dir(), Some("a".to_string()));
    let items = walk.expand(&vec![entry("x.yara", EntryKind::File)]);
    assert_eq!(items[0].path, "a/x.yara");
    assert_eq!(items[0].depth, 1);
    assert_eq!(walk.next_dir(), None);
}

#[test]
fn unreadable_directory_is_counted_and_the_walk_goes_on() {
    let mut walk = Traverser::new(yar_patterns(), 3);
    walk.next_dir();
    let root = vec![entry("locked", EntryKind::Dir), entry("open", EntryKind::Dir)];
    walk.expand(&root);
    assert_eq!(walk.next_dir(), Some("open".to_string()));
    let items = walk.expand(&vec![entry("ok.yar", EntryKind::File)]);
    assert_eq!(items.len(), 1);
    assert_eq!(walk.next_dir(), Some("locked".to_string()));
    walk.fail();
    assert_eq!(walk.walker_errors(), 1);
    assert_eq!(walk.next_dir(), None);
    assert!(walk.is_done());
}

#[test]
fn answers_without_a_current_directory_change_nothing() {
    let mut walk = Traverser::new(yar_patterns(), 3);
    walk.fail();
    assert_eq!(walk.walker_errors(), 0);
    assert!(walk.expand(&vec![entry("a.yar", EntryKind::File)]).is_empty());
    assert_eq!(walk.next_dir(), Some(String::new()));
}

#[test]
fn files_that_no_pattern_matches_are_never_handed_out() {
    let mut set = PatternSet::new();
    set.add("**/fmttest_*.yar");
    let mut walk = Traverser::new(set, 1000);
    walk.next_dir();
    let root = vec![
        entry("fmttest_rule.yar", EntryKind::File),
        entry("fmttest_rule.txt", EntryKind::File),
        entry("sub", EntryKind::Dir),
    ];
    let items = walk.expand(&root);
    assert_eq!(items.len(), 1);
    assert_eq!(items[0].path, "fmttest_rule.yar");
    assert_eq!(walk.next_dir(), Some("sub".to_string()));
    let sub = vec![entry("rule.yar", EntryKind::File), entry("fmttest_x.yar", EntryKind::File)];
    let items = walk.expand(&sub);
    assert_eq!(items.len(), 1);
    assert_eq!(items[0].path, "sub/fmttest_x.yar");
    assert_eq!(items[0].index, 1);
}

#[test]
fn root_that_is_a_file_is_visited_when_a_pattern_matches_its_name() {
    let item = root_file(&yar_patterns(), "rule.yar").unwrap();
    assert_eq!((item.path.as_str(), item.depth, item.index), ("rule.yar", 0, 0));
    assert!(root_file(&yar_patterns(), "rule.yara").is_some());
    assert!(root_file(&yar_patterns(), "rule.txt").is_none());
    assert!(root_file(&PatternSet::new(), "rule.yar").is_none());
}
