use system_check::parser::parse_check_output;
use system_check::strip::strip_ansi_and_symbols;

#[test]
fn raw_equals_marked_window() {
    let text = "noise before\n=== Check Start ===\n[PASS] Battery, voltage nominal\n=======================\nnoise after";
    let report = parse_check_output(text);
    assert_eq!(
        report.raw,
        "=== Check Start ===\n[PASS] Battery, voltage nominal\n======================="
    );
}

#[test]
fn missing_both_markers_whole_text_is_raw() {
    let text = "just some output\nwith two lines";
    let report = parse_check_output(text);
    assert_eq!(report.raw, text);
}

#[test]
fn missing_end_marker_window_runs_to_end() {
    let text = "prefix\n=== Check Start ===\n[FAIL] Radio, off";
    let report = parse_check_output(text);
    assert_eq!(report.raw, "=== Check Start ===\n[FAIL] Radio, off");
}

#[test]
fn summary_pass_line_parsed() {
    let text = "[PASS] Battery, voltage nominal";
    let report = parse_check_output(text);
    assert_eq!(report.summary.len(), 1);
    let item = &report.summary[0];
    assert_eq!(item.status, "PASS");
    assert_eq!(item.name, "Battery");
    assert_eq!(item.description, "voltage nominal");
    assert_eq!(item.details, "");
}

#[test]
fn summary_fail_line_without_comma() {
    let text = "[FAIL] Camera offline";
    let report = parse_check_output(text);
    assert_eq!(report.summary.len(), 1);
    let item = &report.summary[0];
    assert_eq!(item.status, "FAIL");
    assert_eq!(item.name, "Camera offline");
    assert_eq!(item.description, "");
}

#[test]
fn details_accumulate_for_repeated_name() {
    let text = "=== Check Start ===\n[FAIL] Lidar, sensor check\n=== Detailed Report ===\nLidar,timeout after 5s\nLidar,retrying\n=======================";
    let report = parse_check_output(text);
    assert_eq!(report.summary.len(), 1);
    let item = &report.summary[0];
    assert_eq!(item.name, "Lidar");
    assert_eq!(item.details, "timeout after 5s\nretrying");
}

#[test]
fn plugin_error_class_name_extracted() {
    let text = "Plugin error: failed to load class type foo_bar::Widget";
    let report = parse_check_output(text);
    assert_eq!(report.summary.len(), 1);
    let item = &report.summary[0];
    assert_eq!(item.status, "FAIL");
    assert_eq!(item.name, "foo_bar::Widget");
    assert_eq!(
        item.description,
        "Plugin error: failed to load class type foo_bar::Widget"
    );
    assert_eq!(
        item.details,
        "Raw Error: Plugin error: failed to load class type foo_bar::Widget"
    );
}

#[test]
fn plugin_error_without_class_phrase_gets_placeholder() {
    let text = "Plugin error: nothing else to say";
    let report = parse_check_output(text);
    assert_eq!(report.summary.len(), 1);
    assert_eq!(report.summary[0].name, "Plugin Load Error");
}

#[test]
fn plugin_error_with_trailing_space_after_class_type() {
    let text = "Plugin error: failed to load class type ";
    let report = parse_check_output(text);
    assert_eq!(report.summary.len(), 1);
    assert_eq!(report.summary[0].name, "Plugin Load Error");
}

#[test]
fn unrecognized_summary_lines_are_dropped() {
    let text = "hello world\n[PASS] A, ok\nsomething else";
    let report = parse_check_output(text);
    assert_eq!(report.summary.len(), 1);
    assert_eq!(report.summary[0].name, "A");
}

#[test]
fn ansi_sequences_removed_from_summary_lines() {
    let text = "\u{1b}[32m[PASS]\u{1b}[0m Battery, all good";
    let report = parse_check_output(text);
    assert_eq!(report.summary.len(), 1);
    let item = &report.summary[0];
    assert_eq!(item.status, "PASS");
    assert_eq!(item.name, "Battery");
    assert_eq!(item.description, "all good");
}

#[test]
fn detailed_section_cleaned_and_kept() {
    let text = "[PASS] A, ok\n=== Detailed Report ===\n\u{1b}[31mA,went fine\u{1b}[0m";
    let report = parse_check_output(text);
    assert_eq!(report.detailed, "=== Detailed Report ===\nA,went fine");
    assert_eq!(report.summary[0].details, "went fine");
}

#[test]
fn text_after_second_split_marker_dropped_from_detailed() {
    let text = "[PASS] A, ok\n=== Detailed Report ===\nA,first\n=== Detailed Report ===\nA,second";
    let report = parse_check_output(text);
    assert_eq!(report.detailed, "=== Detailed Report ===\nA,first");
    assert_eq!(report.summary[0].details, "first");
}

#[test]
fn empty_input_gives_empty_report() {
    let report = parse_check_output("");
    assert_eq!(report.summary.len(), 0);
    assert_eq!(report.detailed, "");
    assert_eq!(report.raw, "");
}

#[test]
fn prompt_glyph_removed() {
    let text = "[PASS] Battery\u{e0b0}, ok";
    let report = parse_check_output(text);
    assert_eq!(report.summary[0].name, "Battery");
}

#[test]
fn stripping_twice_equals_stripping_once() {
    let inputs = [
        "\u{1b}[31m  hello \u{e0b0}world \u{1b}[0m",
        "  plain text  ",
        "\u{1b}[38;5;10mcolou\u{1b}[Kred\u{1b}[0m",
        "",
    ];
    for input in inputs {
        let v: Vec<char> = input.chars().collect();
        let once = strip_ansi_and_symbols(&v);
        let twice = strip_ansi_and_symbols(&once);
        assert_eq!(once, twice);
    }
}

#[test]
fn crlf_line_endings_handled() {
    let text = "[PASS] A, ok\r\n=== Detailed Report ===\r\nA,fine\r\n";
    let report = parse_check_output(text);
    assert_eq!(report.summary.len(), 1);
    assert_eq!(report.summary[0].description, "ok");
    assert_eq!(report.summary[0].details, "fine");
}

#[test]
fn line_with_both_tags_counts_as_pass() {
    let text = "[PASS] Combo [FAIL], odd line";
    let report = parse_check_output(text);
    assert_eq!(report.summary.len(), 1);
    assert_eq!(report.summary[0].status, "PASS");
    assert_eq!(report.summary[0].name, "Combo [FAIL]");
    assert_eq!(report.summary[0].description, "odd line");
}

#[test]
fn no_split_marker_gives_empty_detailed() {
    let report = parse_check_output("[PASS] A, ok");
    assert_eq!(report.detailed, "");
}
