use qgrep::filenames::extract;
use qgrep::logging::{configure_logging, log_enabled, LogLevel};
use qgrep::process::{overall_success, Printer};
use qgrep::Error;

fn strings(items: &[&str]) -> Vec<String> {
    let mut v = Vec::new();
    for item in items {
        v.push(item.to_string());
    }
    v
}

#[test]
fn whole_line_mode_emits_matching_line_once() {
    let p = Printer::new("", false, false, false);
    let r = p.render("hello world", true, &strings(&["wor"]), 1);
    assert_eq!(r, strings(&["hello world"]));
}

#[test]
fn whole_line_mode_emits_nothing_without_a_match() {
    let p = Printer::new("", false, false, false);
    let r = p.render("hello world", false, &strings(&[]), 1);
    assert_eq!(r, strings(&[]));
}

#[test]
fn matches_only_mode_emits_the_occurrence() {
    let p = Printer::new("", false, true, false);
    let r = p.render("hello world", true, &strings(&["wor"]), 1);
    assert_eq!(r, strings(&["wor"]));
}

#[test]
fn matches_only_mode_emits_nothing_with_no_occurrence() {
    let p = Printer::new("", false, true, false);
    let r = p.render("hello world", false, &strings(&[]), 1);
    assert_eq!(r, strings(&[]));
}

#[test]
fn same_line_mode_joins_occurrences_with_a_space() {
    let p = Printer::new("", true, true, false);
    let r = p.show_matches(&strings(&["foo", "bar"]), 1);
    assert_eq!(r, strings(&["foo bar"]));
}

#[test]
fn separate_line_mode_emits_one_line_per_occurrence() {
    let p = Printer::new("", false, true, false);
    let r = p.show_matches(&strings(&["foo", "bar"]), 1);
    assert_eq!(r, strings(&["foo", "bar"]));
}

#[test]
fn stdin_prefix_is_the_line_number() {
    let p = Printer::new("", false, false, true);
    assert_eq!(p.get_line_prefix(1), "1\t");
}

#[test]
fn file_prefix_names_the_source() {
    let p = Printer::new("f.txt", false, false, true);
    assert_eq!(p.get_line_prefix(1), "f.txt:1\t");
    assert_eq!(p.get_line_prefix(42), "f.txt:42\t");
}

#[test]
fn prefix_is_empty_without_line_numbers() {
    let p = Printer::new("f.txt", false, false, false);
    assert_eq!(p.get_line_prefix(1), "");
}

#[test]
fn prefixed_lines_carry_the_prefix_per_occurrence() {
    let p = Printer::new("f.txt", false, true, true);
    let r = p.show_matches(&strings(&["foo", "bar"]), 3);
    assert_eq!(r, strings(&["f.txt:3\tfoo", "f.txt:3\tbar"]));
}

#[test]
fn run_succeeds_only_when_every_source_did() {
    assert!(overall_success(&vec![]));
    assert!(overall_success(&vec![true, true]));
    assert!(!overall_success(&vec![true, false, true]));
}

#[test]
fn extraction_keeps_pattern_order_and_first_occurrences() {
    let expanded = vec![strings(&["a", "b"]), strings(&["b", "c"])];
    assert_eq!(extract(&expanded), Ok(strings(&["a", "b", "c"])));
}

#[test]
fn empty_expansion_fails_the_run() {
    let expanded = vec![strings(&["a"]), strings(&[])];
    assert_eq!(extract(&expanded), Err(Error::Glob));
}

#[test]
fn no_patterns_extract_no_files() {
    assert_eq!(extract(&vec![]), Ok(strings(&[])));
}

#[test]
fn error_messages_name_their_category() {
    assert_eq!(Error::Config.describe(), "cannot discover the rules directory");
    assert_eq!(Error::Glob.describe(), "an input file pattern matched nothing");
    assert_eq!(Error::RuleFile.describe(), "cannot read a rule file");
    assert_eq!(
        Error::PatternCompile.describe(),
        "cannot compile the rule pattern set"
    );
    assert_eq!(Error::Stream.describe(), "cannot process an input stream");
}

#[test]
fn debug_flag_selects_the_trace_filter() {
    assert_eq!(configure_logging(true), LogLevel::Trace);
    assert_eq!(configure_logging(false), LogLevel::Warn);
}

#[test]
fn filter_passes_records_up_to_its_level() {
    assert!(log_enabled(LogLevel::Warn, LogLevel::Error));
    assert!(log_enabled(LogLevel::Warn, LogLevel::Warn));
    assert!(!log_enabled(LogLevel::Warn, LogLevel::Info));
    assert!(!log_enabled(LogLevel::Warn, LogLevel::Debug));
    assert!(log_enabled(LogLevel::Trace, LogLevel::Debug));
    assert!(log_enabled(LogLevel::Trace, LogLevel::Trace));
}
