use gruff::noqa::suppresses_exec;
use gruff::selection::find_rule;
use gruff::selection::get_rule_specificity;
use gruff::selection::is_rule_enabled_exec;
use gruff::selection::is_rule_selector_exec;
use gruff::selection::validate_rules;

fn chars(s: &str) -> Vec<char> {
    s.chars().collect()
}

fn selectors(values: &[&str]) -> Vec<Vec<char>> {
    values.iter().map(|v| chars(v)).collect()
}

#[test]
fn recognises_selectors() {
    assert!(is_rule_selector_exec(&chars("ALL")));
    assert!(is_rule_selector_exec(&chars("GR")));
    assert!(is_rule_selector_exec(&chars("GR012")));
    assert!(!is_rule_selector_exec(&chars("")));
    assert!(!is_rule_selector_exec(&chars("GR013")));
    assert!(!is_rule_selector_exec(&chars("all")));
    let message = validate_rules(&selectors(&["GR001", "E501", "X"])).err().unwrap();
    assert_eq!(message.iter().collect::<String>(), "Unknown rule selector: E501");
    assert!(validate_rules(&selectors(&["ALL", "GR00"])).is_ok());
}

#[test]
fn measures_selector_specificity() {
    let code = chars("GR001");
    assert_eq!(get_rule_specificity(&selectors(&["ALL", "GR0", "GR00"]), &code), Some(4));
    assert_eq!(get_rule_specificity(&selectors(&["ALL"]), &code), Some(0));
    assert_eq!(get_rule_specificity(&selectors(&["GR002"]), &code), None);
}

#[test]
fn enables_by_the_most_specific_selector() {
    let code = chars("GR001");
    assert!(is_rule_enabled_exec(&selectors(&["ALL"]), &Vec::new(), &code));
    assert!(is_rule_enabled_exec(&selectors(&["GR001"]), &selectors(&["GR"]), &code));
    assert!(!is_rule_enabled_exec(&selectors(&["GR"]), &selectors(&["GR001"]), &code));
    assert!(!is_rule_enabled_exec(&selectors(&["GR00"]), &selectors(&["GR00"]), &code));
    assert!(!is_rule_enabled_exec(&Vec::new(), &Vec::new(), &code));
}

#[test]
fn reads_noqa_directives() {
    let code = chars("GR001");
    assert!(suppresses_exec(&chars("# noqa"), &code));
    assert!(suppresses_exec(&chars("# NOQA: GR001"), &code));
    assert!(suppresses_exec(&chars("# noqa:GR002,GR001"), &code));
    assert!(suppresses_exec(&chars("# note # noqa: GR001"), &code));
    assert!(!suppresses_exec(&chars("# noqa: GR002"), &code));
    assert!(!suppresses_exec(&chars("# noqa: gr001"), &code));
    assert!(!suppresses_exec(&chars("# noqa:"), &code));
    assert!(!suppresses_exec(&chars("# noqa: nonsense GR001"), &code));
    assert!(!suppresses_exec(&chars("# noqa:GR001GR002"), &code));
    assert!(!suppresses_exec(&chars("# docs https://example.com/#noqa"), &code));
    assert!(!suppresses_exec(&chars("# noqaGR001"), &code));
}

#[test]
fn the_gr_prefix_enables_every_rule() {
    for k in 1..=12 {
        let code = chars(&format!("GR{k:03}"));
        assert!(is_rule_enabled_exec(&selectors(&["GR"]), &Vec::new(), &code));
    }
}

#[test]
fn finds_rules_by_code_or_name() {
    assert_eq!(find_rule(&"GR004".to_string()).ok(), Some(3));
    assert_eq!(find_rule(&"final-constants".to_string()).ok(), Some(3));
    assert_eq!(find_rule(&"no-single-consumer-module-bindings".to_string()).ok(), Some(10));
    assert_eq!(find_rule(&"explicit-instance-data".to_string()).ok(), Some(11));
    assert_eq!(find_rule(&"GR012".to_string()).ok(), Some(11));
    let message = find_rule(&"GR999".to_string()).err().unwrap();
    let message: String = message.iter().collect();
    assert!(message.starts_with("Unknown rule: GR999"));
    assert!(message.ends_with("(rules: GR001, GR002, GR003, GR004, GR005, GR006, GR007, GR008, GR009, GR010, GR011, GR012)"));
    assert!(find_rule(&"gr004".to_string()).is_err());
}
