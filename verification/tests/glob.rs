use fmtwalk::glob::{chars_of, compile, match_tokens, Pattern, PatternSet, Token};

fn matches(pattern: &str, path: &str) -> bool {
    Pattern::new(pattern).matches(path)
}

#[test]
fn double_star_prefix_matches_any_number_of_directories() {
    assert!(matches("**/*.yar", "rule.yar"));
    assert!(matches("**/*.yar", "subdir/nested.yar"));
    assert!(matches("**/*.yar", "level1/level2/level2.yar"));
    assert!(!matches("**/*.yar", "rule.txt"));
    assert!(!matches("**/*.yar", "rule.yara"));
    assert!(matches("**/*.yara", "rule2.yara"));
}

#[test]
fn double_star_prefix_stops_at_component_boundaries() {
    assert!(matches("**/b.yar", "a/b.yar"));
    assert!(!matches("**/b.yar", "ab.yar"));
    assert!(!matches("**/b.yar", "a/xb.yar"));
}

#[test]
fn filter_with_a_prefix_selects_by_name() {
    assert!(matches("**/fmttest_*.yar", "fmttest_rule.yar"));
    assert!(!matches("**/fmttest_*.yar", "fmttest_rule.txt"));
    assert!(!matches("**/fmttest_*.yar", "other_rule.yar"));
}

#[test]
fn star_stays_inside_a_component() {
    assert!(matches("*.yar", "rule.yar"));
    assert!(matches("*.yar", ".yar"));
    assert!(!matches("*.yar", "sub/rule.yar"));
    assert!(matches("*/*.yar", "sub/rule.yar"));
    assert!(!matches("*/*.yar", "rule.yar"));
    assert!(matches("a*b*c", "aXbYc"));
    assert!(matches("a*b*c", "abc"));
    assert!(!matches("a*b*c", "aXbY"));
}

#[test]
fn question_mark_takes_one_character_of_a_component() {
    assert!(matches("rule?.yar", "rule1.yar"));
    assert!(!matches("rule?.yar", "rule.yar"));
    assert!(!matches("rule?.yar", "rule12.yar"));
    assert!(!matches("a?b", "a/b"));
    assert!(matches("r?le.yar", "r\u{00fc}le.yar"));
}

#[test]
fn double_star_elsewhere_crosses_separators() {
    assert!(matches("a/**", "a/b"));
    assert!(matches("a/**", "a/b/c.yar"));
    assert!(matches("a/**", "a/"));
    assert!(!matches("a/**", "a"));
    assert!(matches("**", ""));
    assert!(matches("**", "any/thing"));
    assert!(matches("a/**/z", "a/z"));
    assert!(matches("a/**/z", "a/b/c/z"));
    assert!(!matches("a/**/z", "a/bz"));
}

#[test]
fn matching_keeps_case_and_covers_the_whole_path() {
    assert!(matches("Rule.yar", "Rule.yar"));
    assert!(!matches("Rule.yar", "rule.yar"));
    assert!(!matches("*.YAR", "rule.yar"));
    assert!(!matches("rule", "rule.yar"));
    assert!(!matches("rule.yar", "rule"));
    assert!(matches("", ""));
    assert!(!matches("", "a"));
}

#[test]
fn compile_tells_the_tokens_apart() {
    let tokens = compile(&chars_of("**/a?*/**x"));
    assert_eq!(
        tokens,
        vec![
            Token::Dirs,
            Token::Literal('a'),
            Token::One,
            Token::Many,
            Token::Literal('/'),
            Token::Any,
            Token::Literal('x'),
        ]
    );
    assert_eq!(compile(&chars_of("a**/b")), vec![
        Token::Literal('a'),
        Token::Any,
        Token::Literal('/'),
        Token::Literal('b'),
    ]);
    assert_eq!(compile(&chars_of("***")), vec![Token::Any, Token::Many]);
    assert!(compile(&chars_of("")).is_empty());
}

#[test]
fn match_tokens_agrees_with_a_hand_made_pattern() {
    let tokens = vec![Token::Dirs, Token::Many, Token::Literal('.'), Token::Literal('y')];
    assert!(match_tokens(&tokens, &chars_of("a/b/c.y")));
    assert!(match_tokens(&tokens, &chars_of(".y")));
    assert!(!match_tokens(&tokens, &chars_of("a/b/c.z")));
    assert!(match_tokens(&Vec::new(), &chars_of("")));
    assert!(!match_tokens(&Vec::new(), &chars_of("x")));
}

#[test]
fn chars_of_keeps_every_character() {
    assert_eq!(chars_of("a/\u{00e9}z"), vec!['a', '/', '\u{00e9}', 'z']);
    assert!(chars_of("").is_empty());
}

#[test]
fn pattern_keeps_its_text() {
    assert_eq!(Pattern::new("**/*.yar").as_str(), "**/*.yar");
}

#[test]
fn pattern_set_selects_what_any_pattern_matches() {
    let mut set = PatternSet::new();
    assert!(set.is_empty());
    assert_eq!(set.len(), 0);
    assert!(!set.matches("rule.yar"));
    set.add("**/*.yar");
    set.add("**/*.yara");
    assert!(!set.is_empty());
    assert_eq!(set.len(), 2);
    assert!(set.matches("rule.yar"));
    assert!(set.matches("deep/er/rule.yara"));
    assert!(!set.matches("rule.txt"));
}
