use lifetime_repair::diagnostics::{collect_pairs, relevant_span_count};
use lifetime_repair::patcher::{apply_line_helps, repair_standard_help, STANDARD_HELP_PATTERN};
use lifetime_repair::{RustcError, RustcSpan};

fn lines_of(v: &[&str]) -> Vec<String> {
    v.iter().map(|s| s.to_string()).collect()
}

const SUGGESTION: &str = "error[E0597]: `y` does not live long enough\nhelp: consider borrowing here\n  |\n3 | let x = &y;\n";

#[test]
fn patcher_replaces_exactly_line_three() {
    let mut lines = lines_of(&["fn main() {", "let y = 1;", "let x = y;", "println!(\"{}\", x);", "}"]);
    let helped = repair_standard_help(SUGGESTION, &vec![None], &mut lines);
    assert!(helped);
    assert_eq!(
        lines,
        lines_of(&["fn main() {", "let y = 1;", "let x = &y;", "println!(\"{}\", x);", "}"])
    );
}

#[test]
fn patcher_reads_rendered_records() {
    let mut lines = lines_of(&["a", "b", "c", "d", "e"]);
    let records = vec![Some(SUGGESTION.to_string()), Some("nothing to see".to_string())];
    assert!(repair_standard_help("ignored", &records, &mut lines));
    assert_eq!(lines, lines_of(&["a", "b", "let x = &y;", "d", "e"]));
}

#[test]
fn patcher_skips_lifetime_placeholder() {
    let text = "help: consider introducing a named lifetime\n  |\n2 | fn f(x: &'lifetime i32) {\n";
    let mut lines = lines_of(&["a", "b", "c"]);
    assert!(!repair_standard_help(text, &vec![None], &mut lines));
    assert_eq!(lines, lines_of(&["a", "b", "c"]));
}

#[test]
fn patcher_skips_lines_outside_the_file() {
    let text = "help: consider this\n  |\n9 | let z = 0;\n";
    let mut lines = lines_of(&["a", "b"]);
    assert!(!repair_standard_help(text, &vec![None], &mut lines));
    assert_eq!(lines, lines_of(&["a", "b"]));
}

#[test]
fn patcher_without_suggestion_makes_no_progress() {
    let mut lines = lines_of(&["a"]);
    assert!(!repair_standard_help("error: mismatched types\n", &vec![None], &mut lines));
    assert_eq!(lines, lines_of(&["a"]));
}

#[test]
fn patcher_applies_suggestions_in_order() {
    let mut lines = lines_of(&["a", "b", "c"]);
    let helps = vec![
        ("2".to_string(), "B".to_string()),
        ("2".to_string(), "BB".to_string()),
        ("x".to_string(), "never".to_string()),
        ("0".to_string(), "never".to_string()),
        ("1".to_string(), "A".to_string()),
    ];
    assert!(apply_line_helps(&mut lines, &helps));
    // the repeated line number replaces the same line again
    assert_eq!(lines, lines_of(&["A", "BB", "c"]));
}

#[test]
fn scraping_captures_line_and_replacement() {
    let pairs = collect_pairs(STANDARD_HELP_PATTERN, SUGGESTION, &vec![None]);
    assert_eq!(pairs, vec![("3".to_string(), "let x = &y;".to_string())]);
}

#[test]
fn scraping_uses_raw_text_for_unreadable_records() {
    let records = vec![None, Some(String::new())];
    let pairs = collect_pairs(STANDARD_HELP_PATTERN, SUGGESTION, &records);
    assert_eq!(pairs.len(), 1);
    assert_eq!(pairs[0].0, "3");
}

#[test]
fn spans_are_filtered_by_source_path() {
    let message = RustcError {
        rendered: "error".to_string(),
        spans: vec![
            RustcSpan { file_name: "src/main.rs".to_string() },
            RustcSpan { file_name: "other/lib.rs".to_string() },
            RustcSpan { file_name: "main.rs".to_string() },
        ],
    };
    assert_eq!(relevant_span_count("/project/src/main.rs", &message), 2);
    assert_eq!(relevant_span_count("/elsewhere", &message), 0);
}
