use fmtwalk::format::{Config, FmtConfig, MetaConfig, PatternsConfig, RuleConfig};
use fmtwalk::report::Message;
use fmtwalk::rerun::apply_rewrites;
use fmtwalk::run::{
    default_patterns, exec_fmt, ConfigError, FmtArgs, FmtRun, Rewrite, TraversalConfig,
    DEFAULT_RECURSION_DEPTH, DEFAULT_TAB_SIZE,
};
use fmtwalk::state::{exit_code, FmtState, WalkResult};
use fmtwalk::tree::{Entry, Node};

fn config() -> Config {
    Config {
        fmt: FmtConfig {
            meta: MetaConfig { align_values: true },
            patterns: PatternsConfig { align_values: true },
            rule: RuleConfig {
                indent_section_headers: true,
                indent_section_contents: true,
                indent_spaces: 2,
                newline_before_curly_brace: false,
                empty_line_before_section_header: false,
                empty_line_after_section_header: false,
            },
        },
    }
}

fn args() -> FmtArgs {
    FmtArgs { check: false, filters: Vec::new(), threads: None, recursive: None, tab_size: 4 }
}

fn file(name: &str, text: &str) -> Entry {
    Entry { name: name.to_string(), node: Node::File(text.as_bytes().to_vec()) }
}

fn dir(name: &str, entries: Vec<Entry>) -> Entry {
    Entry { name: name.to_string(), node: Node::Dir(entries) }
}

fn stdout(run: &FmtRun) -> String {
    let lines: Vec<&str> = run.messages.iter().map(|message| message.as_str()).collect();
    lines.join("\n")
}

fn counts(run: &FmtRun) -> (usize, usize, usize) {
    (run.state.files_ok, run.state.files_modified, run.state.errors)
}

fn tree(entries: Vec<Entry>) -> Entry {
    dir("rules", entries)
}

fn find<'a>(root: &'a mut Entry, path: &str) -> &'a mut Node {
    if matches!(root.node, Node::File(_)) {
        assert_eq!(root.name, path);
        return &mut root.node;
    }
    let mut node = &mut root.node;
    for name in path.split('/') {
        let children = match node {
            Node::Dir(children) => children,
            _ => panic!("{} is no directory", path),
        };
        node = &mut children.iter_mut().find(|child| child.name == name).unwrap().node;
    }
    node
}

/// Writes back what a run asked to rewrite.
fn write_back(root: &mut Entry, run: &FmtRun) {
    for rewrite in &run.rewrites {
        *find(root, &rewrite.path) = Node::File(rewrite.contents.clone());
    }
}

fn contents(root: &mut Entry, path: &str) -> Vec<u8> {
    match find(root, path) {
        Node::File(bytes) => bytes.clone(),
        _ => panic!("{} is no file", path),
    }
}

#[test]
fn fmt() {
    let mut root = file("rule.yar", "rule test { condition: true }");
    let run = exec_fmt(&args(), &config(), &root);
    assert_eq!(run.exit_code(), 1);
    write_back(&mut root, &run);
    let run = exec_fmt(&args(), &config(), &root);
    assert_eq!(run.exit_code(), 0);
}

#[test]
fn fmt_check_shows_filenames() {
    let root = file("rule.yar", "rule test { condition: true }");
    let run = exec_fmt(&FmtArgs { check: true, ..args() }, &config(), &root);
    assert!(stdout(&run).contains("rule.yar"));
    assert_eq!(run.exit_code(), 1);
}

#[test]
fn utf8_error() {
    let root = Entry { name: "rule.yar".to_string(), node: Node::File(vec![0xff, 0xff]) };
    let run = exec_fmt(&args(), &config(), &root);
    assert!(stdout(&run).contains("FAIL"));
    assert!(stdout(&run).contains("invalid UTF-8"));
    assert_eq!(run.exit_code(), 1);
}

#[test]
fn fmt_directory() {
    let mut root = tree(vec![
        file("rule1.yar", "rule test1 { condition: true }"),
        file("rule2.yara", "rule test2 { condition: false }"),
    ]);
    let run = exec_fmt(&args(), &config(), &root);
    assert!(stdout(&run).contains("MODIFIED"));
    assert_eq!(run.exit_code(), 1);
    assert_eq!(run.rewrites.len(), 2);
    write_back(&mut root, &run);
    let run = exec_fmt(&args(), &config(), &root);
    assert!(stdout(&run).contains("OK"));
    assert_eq!(run.exit_code(), 0);
}

#[test]
fn fmt_directory_check_mode() {
    let mut root = tree(vec![file("rule1.yar", "rule test1 { condition: true }")]);
    let run = exec_fmt(&FmtArgs { check: true, ..args() }, &config(), &root);
    assert!(stdout(&run).contains("NEED FMT"));
    assert_eq!(run.exit_code(), 1);
    write_back(&mut root, &run);
    assert_eq!(contents(&mut root, "rule1.yar"), b"rule test1 { condition: true }");
}

#[test]
fn fmt_directory_with_filter() {
    let mut root = tree(vec![
        file("fmttest_rule.yar", "rule test1 { condition: true }"),
        file("fmttest_rule.txt", "rule test2 { condition: true }"),
    ]);
    let filtered = FmtArgs { filters: vec!["**/fmttest_*.yar".to_string()], ..args() };
    let run = exec_fmt(&filtered, &config(), &root);
    assert_eq!(run.exit_code(), 1);
    write_back(&mut root, &run);
    assert_eq!(contents(&mut root, "fmttest_rule.txt"), b"rule test2 { condition: true }");
}

#[test]
fn fmt_directory_recursive() {
    let mut root = tree(vec![
        dir("subdir", vec![file("nested.yar", "rule nested { condition: true }")]),
        file("root.yar", "rule root { condition: true }"),
    ]);
    let run = exec_fmt(&args(), &config(), &root);
    assert_eq!(run.exit_code(), 1);
    assert_eq!(run.messages.len(), 1);
    write_back(&mut root, &run);
    assert_eq!(contents(&mut root, "root.yar"), b"rule root {\n  condition:\n    true\n}\n");
    assert_eq!(contents(&mut root, "subdir/nested.yar"), b"rule nested { condition: true }");
    let recursive = FmtArgs { recursive: Some(1000), ..args() };
    let run = exec_fmt(&recursive, &config(), &root);
    assert!(stdout(&run).contains("nested.yar"));
    assert_eq!(run.exit_code(), 1);
    assert_eq!(counts(&run), (1, 1, 0));
}

#[test]
fn fmt_directory_recursive_with_depth() {
    let mut root = tree(vec![
        dir(
            "level1",
            vec![
                dir("level2", vec![file("level2.yar", "rule level2 { condition: true }")]),
                file("level1.yar", "rule level1 { condition: true }"),
            ],
        ),
        file("root.yar", "rule root { condition: true }"),
    ]);
    let run = exec_fmt(&FmtArgs { recursive: Some(1), ..args() }, &config(), &root);
    assert!(stdout(&run).contains("level1.yar"));
    assert_eq!(run.exit_code(), 1);
    write_back(&mut root, &run);
    assert_eq!(contents(&mut root, "level1/level2/level2.yar"), b"rule level2 { condition: true }");
    assert_eq!(contents(&mut root, "level1/level1.yar"), b"rule level1 {\n  condition:\n    true\n}\n");
}

#[test]
fn one_changed_file_is_counted_as_modified() {
    let root = tree(vec![file("rule.yar", "rule test { condition: true }")]);
    let run = exec_fmt(&args(), &config(), &root);
    assert_eq!(counts(&run), (0, 1, 0));
    assert_eq!(run.walker_errors, 0);
    assert_eq!(run.exit_code(), 1);
    assert_eq!(run.rewrites.len(), 1);
    assert_eq!(run.rewrites[0].path, "rule.yar");
    assert_eq!(run.rewrites[0].contents, b"rule test {\n  condition:\n    true\n}\n");
}

#[test]
fn file_in_a_subdirectory_is_not_visited_at_depth_zero() {
    let root = tree(vec![dir("sub", vec![file("rule.yar", "rule test { condition: true }")])]);
    let run = exec_fmt(&args(), &config(), &root);
    assert_eq!(counts(&run), (0, 0, 0));
    assert!(run.messages.is_empty());
    assert!(run.rewrites.is_empty());
    assert_eq!(run.exit_code(), 0);
}

#[test]
fn failing_file_does_not_stop_the_others() {
    let root = tree(vec![
        Entry { name: "broken.yar".to_string(), node: Node::File(vec![0xff, 0xff]) },
        file("good.yar", "rule root {\n  condition:\n    true\n}\n"),
    ]);
    let run = exec_fmt(&args(), &config(), &root);
    assert_eq!(counts(&run), (1, 0, 1));
    assert_eq!(run.exit_code(), 1);
    assert_eq!(run.messages.len(), 2);
    let failure = run.messages[0].as_str();
    assert!(failure.contains("FAIL"));
    assert!(failure.contains("broken.yar"));
    assert!(!failure.contains("good.yar"));
    assert!(run.messages[1].as_str().contains("good.yar"));
    assert!(matches!(&run.messages[0], Message::Error(text) if text.contains("invalid UTF-8")));
    assert!(matches!(&run.messages[1], Message::Info(_)));
    let errors = run.messages.iter().filter(|message| matches!(message, Message::Error(_)));
    assert_eq!(errors.count(), 1);
    assert!(run.rewrites.is_empty());
}

#[test]
fn second_run_over_the_output_changes_nothing() {
    let mut root = tree(vec![
        file("a.yar", "rule a { strings: $a = \"x\" $bb = \"y\" condition: $a or $bb }"),
        file("b.yara", "import \"pe\" rule b { meta: k = 1 longer = 2 condition: true }"),
        dir("sub", vec![file("c.yar", "rule c{condition:false}")]),
    ]);
    let recursive = FmtArgs { recursive: Some(5), ..args() };
    let first = exec_fmt(&recursive, &config(), &root);
    assert_eq!(counts(&first), (0, 3, 0));
    write_back(&mut root, &first);
    let second = exec_fmt(&recursive, &config(), &root);
    assert_eq!(counts(&second), (3, 0, 0));
    assert!(second.rewrites.is_empty());
    assert_eq!(second.exit_code(), 0);
}

#[test]
fn check_mode_never_asks_for_a_rewrite() {
    let root = tree(vec![
        file("a.yar", "rule a { condition: true }"),
        file("b.yar", "rule root {\n  condition:\n    true\n}\n"),
    ]);
    let run = exec_fmt(&FmtArgs { check: true, ..args() }, &config(), &root);
    assert_eq!(counts(&run), (1, 1, 0));
    assert!(run.state.check_mode);
    assert!(run.rewrites.is_empty());
    assert_eq!(run.exit_code(), 1);
}

#[test]
fn directory_that_cannot_be_listed_is_reported_and_fails_the_run() {
    let root = tree(vec![
        Entry { name: "locked".to_string(), node: Node::Unreadable },
        file("good.yar", "rule root {\n  condition:\n    true\n}\n"),
    ]);
    let run = exec_fmt(&FmtArgs { recursive: Some(1), ..args() }, &config(), &root);
    assert_eq!(counts(&run), (1, 0, 0));
    assert_eq!(run.walker_errors, 1);
    assert_eq!(run.exit_code(), 1);
    assert_eq!(run.messages.len(), 2);
    assert!(matches!(&run.messages[0], Message::Error(text) if text.ends_with("can not list `locked`")));
    assert!(run.messages[0].as_str().contains("error:"));
    assert!(matches!(&run.messages[1], Message::Info(_)));
}

#[test]
fn exit_code_follows_the_counters() {
    for errors in 0..2usize {
        for walker_errors in 0..2usize {
            for modified in 0..2usize {
                let state = FmtState { check_mode: false, files_ok: 5, files_modified: modified, errors };
                let expected = if errors == 0 && walker_errors == 0 && modified == 0 { 0 } else { 1 };
                assert_eq!(exit_code(&WalkResult { state, walker_errors }), expected);
                let run = FmtRun {
                    state: FmtState { check_mode: true, files_ok: 0, files_modified: modified, errors },
                    walker_errors,
                    messages: Vec::new(),
                    rewrites: Vec::new(),
                };
                assert_eq!(run.exit_code(), expected);
            }
        }
    }
}

#[test]
fn default_patterns_select_yara_sources() {
    assert_eq!(default_patterns(), vec!["**/*.yar".to_string(), "**/*.yara".to_string()]);
    let plan = args().traversal(6);
    assert_eq!(plan.patterns.len(), 2);
    assert!(plan.patterns.matches("a/b.yar"));
    assert!(plan.patterns.matches("b.yara"));
    assert!(!plan.patterns.matches("b.txt"));
    assert_eq!(plan.max_depth, 0);
    assert_eq!(plan.workers, 6);
}

#[test]
fn arguments_override_the_defaults() {
    let given = FmtArgs {
        check: true,
        filters: vec!["*.rules".to_string()],
        threads: Some(3),
        recursive: Some(7),
        tab_size: 8,
    };
    let plan = given.traversal(16);
    assert_eq!(plan.patterns.len(), 1);
    assert!(plan.patterns.matches("my.rules"));
    assert!(!plan.patterns.matches("my.yar"));
    assert_eq!(plan.max_depth, 7);
    assert_eq!(plan.workers, 3);
}

#[test]
fn walk_without_any_pattern_is_refused() {
    let none: Vec<String> = Vec::new();
    let refused = TraversalConfig::new(&none, &none, Some(2), None, 4);
    assert_eq!(refused.unwrap_err(), ConfigError::NoPatterns);
    let defaults = vec!["**/*.yar".to_string()];
    let made = TraversalConfig::new(&none, &defaults, None, Some(2), 4).unwrap();
    assert_eq!(made.patterns.len(), 1);
    assert_eq!(made.max_depth, 0);
    assert_eq!(made.workers, 2);
    let filters = vec!["*.a".to_string(), "*.b".to_string()];
    let made = TraversalConfig::new(&filters, &defaults, Some(9), None, 4).unwrap();
    assert_eq!(made.patterns.len(), 2);
    assert!(made.patterns.matches("x.b"));
    assert!(!made.patterns.matches("x.yar"));
    assert_eq!(made.max_depth, 9);
    assert_eq!(made.workers, 4);
}

#[test]
fn resolve_fills_in_what_the_command_line_leaves_out() {
    let bare = FmtArgs::resolve(false, Vec::new(), None, None, None);
    assert!(!bare.check);
    assert!(bare.filters.is_empty());
    assert_eq!(bare.threads, None);
    assert_eq!(bare.recursive, None);
    assert_eq!(bare.tab_size, 4);
    assert_eq!(DEFAULT_TAB_SIZE, 4);
    let flag_only = FmtArgs::resolve(true, Vec::new(), Some(2), Some(None), Some(8));
    assert!(flag_only.check);
    assert_eq!(flag_only.threads, Some(2));
    assert_eq!(flag_only.recursive, Some(1000));
    assert_eq!(DEFAULT_RECURSION_DEPTH, 1000);
    assert_eq!(flag_only.tab_size, 8);
    let with_depth =
        FmtArgs::resolve(false, vec!["*.yar".to_string()], None, Some(Some(1)), Some(0));
    assert_eq!(with_depth.recursive, Some(1));
    assert_eq!(with_depth.filters, vec!["*.yar".to_string()]);
    assert_eq!(with_depth.tab_size, 0);
}

#[test]
fn messages_name_the_directories_first_and_then_each_file_in_walk_order() {
    yansi::disable();
    let root = tree(vec![
        file("a.yar", "rule root {\n  condition:\n    true\n}\n"),
        Entry { name: "locked".to_string(), node: Node::Unreadable },
        dir("sub", vec![file("b.yar", "rule b { condition: true }")]),
        Entry { name: "c.yar".to_string(), node: Node::File(vec![0xff]) },
    ]);
    let run = exec_fmt(&FmtArgs { recursive: Some(3), check: true, ..args() }, &config(), &root);
    let lines: Vec<&str> = run.messages.iter().map(|message| message.as_str()).collect();
    assert_eq!(lines.len(), 4);
    assert_eq!(lines[0], "error: can not list `locked`");
    assert_eq!(lines[1], "[   OK ] a.yar");
    assert!(lines[2].starts_with("[ FAIL ] c.yar\ninvalid UTF-8"));
    assert_eq!(lines[3], "[ NEED FMT ] sub/b.yar");
    assert_eq!(counts(&run), (1, 1, 1));
    assert_eq!(run.walker_errors, 1);
}

#[test]
fn root_that_is_a_file_outside_the_patterns_is_left_alone() {
    let root = file("notes.txt", "rule test { condition: true }");
    let run = exec_fmt(&args(), &config(), &root);
    assert_eq!(counts(&run), (0, 0, 0));
    assert!(run.messages.is_empty());
    assert!(run.rewrites.is_empty());
    assert_eq!(run.exit_code(), 0);
    let filtered = FmtArgs { filters: vec!["*.txt".to_string()], ..args() };
    let run = exec_fmt(&filtered, &config(), &root);
    assert_eq!(counts(&run), (0, 1, 0));
    assert_eq!(run.rewrites[0].path, "notes.txt");
}

#[test]
fn root_that_is_a_file_is_named_by_its_name() {
    yansi::disable();
    let root = file("rule.yar", "rule root {\n  condition:\n    true\n}\n");
    let run = exec_fmt(&FmtArgs { recursive: Some(3), ..args() }, &config(), &root);
    assert_eq!(counts(&run), (1, 0, 0));
    assert_eq!(run.walker_errors, 0);
    assert_eq!(run.messages.len(), 1);
    assert_eq!(run.messages[0].as_str(), "[   OK ] rule.yar");
    assert_eq!(run.exit_code(), 0);
}

#[test]
fn root_that_cannot_be_listed_fails_the_run() {
    yansi::disable();
    let root = Entry { name: "gone".to_string(), node: Node::Unreadable };
    let run = exec_fmt(&args(), &config(), &root);
    assert_eq!(counts(&run), (0, 0, 0));
    assert_eq!(run.walker_errors, 1);
    assert_eq!(run.messages.len(), 1);
    assert_eq!(run.messages[0].as_str(), "error: can not list `gone`");
    assert_eq!(run.exit_code(), 1);
}

#[test]
fn file_with_a_no_break_space_between_tokens_fails_without_reaching_the_formatter() {
    yansi::disable();
    let root = tree(vec![
        Entry { name: "odd.yar".to_string(), node: Node::File(vec![0xc2, 0xa0]) },
        file("plain.yar", "rule root {\n  condition:\n    true\n}\n"),
    ]);
    let run = exec_fmt(&args(), &config(), &root);
    assert_eq!(counts(&run), (1, 0, 1));
    assert_eq!(
        run.messages[0].as_str(),
        "[ FAIL ] odd.yar\nthe file holds white space between tokens that is neither space nor tab"
    );
    assert_eq!(run.exit_code(), 1);
}

#[test]
fn apply_rewrites_writes_each_file_at_its_path() {
    let mut before = tree(vec![
        file("a.yar", "old a"),
        dir("sub", vec![file("a.yar", "old sub a"), file("b.yar", "old b")]),
        Entry { name: "locked".to_string(), node: Node::Unreadable },
    ]);
    let rewrites = vec![
        Rewrite { path: "sub/a.yar".to_string(), contents: b"first".to_vec() },
        Rewrite { path: "a.yar".to_string(), contents: b"new a".to_vec() },
        Rewrite { path: "sub/a.yar".to_string(), contents: b"second".to_vec() },
        Rewrite { path: "missing.yar".to_string(), contents: b"lost".to_vec() },
    ];
    let mut after = apply_rewrites(&before, &rewrites);
    assert_eq!(after.name, "rules");
    assert_eq!(contents(&mut after, "a.yar"), b"new a");
    assert_eq!(contents(&mut after, "sub/a.yar"), b"second");
    assert_eq!(contents(&mut after, "sub/b.yar"), b"old b");
    assert!(matches!(find(&mut after, "locked"), Node::Unreadable));
    assert_eq!(contents(&mut before, "a.yar"), b"old a");
    let single = file("rule.yar", "old");
    let one = vec![Rewrite { path: "rule.yar".to_string(), contents: b"new".to_vec() }];
    let mut after = apply_rewrites(&single, &one);
    assert_eq!(contents(&mut after, "rule.yar"), b"new");
    let mut same = apply_rewrites(&single, &Vec::new());
    assert_eq!(contents(&mut same, "rule.yar"), b"old");
}

#[test]
fn second_run_over_what_the_first_wrote_changes_nothing() {
    let root = tree(vec![
        file("a.yar", "rule a { strings: $a = \"x\" $bb = \"y\" condition: $a or $bb }"),
        Entry { name: "bad.yar".to_string(), node: Node::File(vec![0xff]) },
        dir("sub", vec![file("c.yar", "rule c{condition:false}"), file("d.yar", "rule root {\n  condition:\n    true\n}\n")]),
    ]);
    let recursive = FmtArgs { recursive: Some(5), ..args() };
    let first = exec_fmt(&recursive, &config(), &root);
    assert_eq!(counts(&first), (1, 2, 1));
    let written = apply_rewrites(&root, &first.rewrites);
    let second = exec_fmt(&recursive, &config(), &written);
    assert_eq!(counts(&second), (3, 0, 1));
    assert!(second.rewrites.is_empty());
    assert_eq!(second.messages.len(), first.messages.len());
    let third = exec_fmt(&recursive, &config(), &apply_rewrites(&written, &second.rewrites));
    assert_eq!(counts(&third), counts(&second));
}

#[test]
fn file_with_a_no_break_space_in_a_comment_is_formatted() {
    yansi::disable();
    let root = tree(vec![
        file("a.yar", "rule a { condition: true } //\u{a0}note"),
        file("b.yar", "rule b {\n  strings:\n    $a = \"x\u{a0}y\"\n  condition:\n    $a\n}\n"),
    ]);
    let run = exec_fmt(&args(), &config(), &root);
    assert_eq!(counts(&run), (1, 1, 0));
    assert_eq!(run.messages[0].as_str(), "[ MODIFIED ] a.yar");
    assert_eq!(run.messages[1].as_str(), "[   OK ] b.yar");
    assert_eq!(run.rewrites.len(), 1);
    assert!(String::from_utf8(run.rewrites[0].contents.clone()).unwrap().contains("//\u{a0}note"));
}
