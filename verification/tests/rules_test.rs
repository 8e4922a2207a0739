use qgrep::rules::{
    build_pattern, build_rule_paths, get_rules_directory, list, parse_rule_names,
    parse_rules_filenames, rules_directory_from,
};
use qgrep::Error;

fn strings(items: &[&str]) -> Vec<String> {
    let mut v = Vec::new();
    for item in items {
        v.push(item.to_string());
    }
    v
}

#[test]
fn names_are_split_on_commas_without_trimming() {
    assert_eq!(parse_rule_names("abc"), strings(&["abc"]));
    assert_eq!(parse_rule_names("a, b"), strings(&["a", " b"]));
    assert_eq!(parse_rule_names("a,b,c"), strings(&["a", "b", "c"]));
}

#[test]
fn one_path_per_distinct_name() {
    let paths = build_rule_paths(&strings(&["a", "b", "a", "a", "b"]), "/rules");
    assert_eq!(paths, strings(&["/rules/a", "/rules/b"]));
}

#[test]
fn repeated_names_change_nothing() {
    let once = build_rule_paths(&strings(&["x", "y"]), "/d");
    let thrice = build_rule_paths(&strings(&["x", "x", "y", "x", "y"]), "/d");
    assert_eq!(once, thrice);
}

#[test]
fn locator_joins_and_deduplicates() {
    let paths = parse_rules_filenames("web,ssh,web", "/home/u/.config/q/rules");
    assert_eq!(
        paths,
        strings(&["/home/u/.config/q/rules/web", "/home/u/.config/q/rules/ssh"])
    );
}

#[test]
fn pattern_wraps_and_alternates_fragments() {
    let pattern = build_pattern(&strings(&["abc\nd.e"]));
    assert_eq!(pattern, "(?:abc)|(?:d.e)");
}

#[test]
fn pattern_joins_fragments_across_files() {
    let pattern = build_pattern(&strings(&["abc", "d.e"]));
    assert_eq!(pattern, "(?:abc)|(?:d.e)");
}

#[test]
fn pattern_skips_blank_lines_and_trims_terminators() {
    let pattern = build_pattern(&strings(&["abc\r\n\n\nwor\n"]));
    assert_eq!(pattern, "(?:abc)|(?:wor)");
}

#[test]
fn all_blank_rules_give_the_empty_pattern() {
    assert_eq!(build_pattern(&strings(&["\n\n", ""])), "");
    assert_eq!(build_pattern(&strings(&[])), "");
}

#[test]
fn explicit_rules_directory_wins() {
    assert_eq!(
        rules_directory_from(Some("/etc/q"), Some("/home/u/.config".to_string())),
        Ok("/etc/q".to_string())
    );
    assert_eq!(get_rules_directory(Some("/etc/q")), Ok("/etc/q".to_string()));
}

#[test]
fn default_rules_directory_extends_config_home() {
    assert_eq!(
        rules_directory_from(None, Some("/home/u/.config".to_string())),
        Ok("/home/u/.config/q/rules".to_string())
    );
}

#[test]
fn missing_config_home_is_a_config_error() {
    assert_eq!(rules_directory_from(None, None), Err(Error::Config));
}

#[test]
fn listing_excludes_reserved_sorts_and_deduplicates() {
    let entries = strings(&["web", "LICENSE", "ssh", "README.md", "web", "mail"]);
    assert_eq!(list(&entries), strings(&["mail", "ssh", "web"]));
}

#[test]
fn listing_of_only_reserved_names_is_empty() {
    let entries = strings(&["LICENSE", "README.md"]);
    assert_eq!(list(&entries), strings(&[]));
}
