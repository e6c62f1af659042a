use exrtool_core::rules::ReplacementRule;

#[test]
fn replacement_rule_replaces_every_occurrence() {
    let rule = ReplacementRule::new("ab", "x");
    assert_eq!(rule.apply("abcabab"), "xcxx");
    assert_eq!(rule.apply("abcabab"), "abcabab".replace("ab", "x"));
}

#[test]
fn replacement_rule_with_empty_pattern_matches_every_boundary() {
    let rule = ReplacementRule::new("", "-");
    assert_eq!(rule.apply("abc"), "-a-b-c-");
    assert_eq!(rule.apply(""), "-");
    assert_eq!(rule.apply("abc"), "abc".replace("", "-"));
}

#[test]
fn replacement_rule_does_not_rescan_what_it_wrote() {
    let rule = ReplacementRule::new("aa", "a");
    assert_eq!(rule.apply("aaaa"), "aa");
    assert_eq!(rule.apply("aaa"), "aaa".replace("aa", "a"));
}
