use invoke_registry::render::{
    action_copy, html_attr_escape, html_escape, render, render_cell, render_desired_cell,
    render_in_cell, render_out_cell, render_test, render_test_table, translate, trim, Data,
    HideBehaviour, Outcome, TestRun, Verdict,
};

fn run(verdict: Verdict, out: &str, stderr: &str) -> TestRun {
    TestRun {
        in_path: "/w/tests/1.in".to_string(),
        in_text: "5 3\n".to_string(),
        outcome: Outcome { verdict, out: out.to_string(), stderr: stderr.to_string() },
        desired: Some("8\n".to_string()),
    }
}

#[test]
fn trim_strips_surrounding_white_space() {
    assert_eq!(trim("  x  "), "x");
    assert_eq!(trim("\n\thello world\r\n"), "hello world");
    assert_eq!(trim("inner  space kept"), "inner  space kept");
    assert_eq!(trim("   "), "");
    assert_eq!(trim(""), "");
}

#[test]
fn html_escape_replaces_specials_and_line_breaks() {
    assert_eq!(html_escape("a<b&c\"d'e\nf>"), "a&lt;b&amp;c&quot;d&#39;e<br/>f&gt;");
    assert_eq!(html_escape("plain"), "plain");
}

#[test]
fn html_attr_escape_keeps_line_breaks() {
    assert_eq!(html_attr_escape("a<b\nc"), "a&lt;b\nc");
    assert_eq!(html_attr_escape("\"quoted\""), "&quot;quoted&quot;");
}

#[test]
fn translate_applies_first_matching_rule() {
    let table: Vec<(char, &str)> = vec![('a', "one"), ('a', "two"), ('b', "")];
    assert_eq!(translate("aba", &table), "oneone");
    assert_eq!(translate("xyz", &table), "xyz");
}

#[test]
fn hide_behaviour_decides_per_flag() {
    assert!(HideBehaviour::Always.should(false));
    assert!(HideBehaviour::Always.should(true));
    assert!(!HideBehaviour::IfAnyFailed.should(false));
    assert!(HideBehaviour::IfAnyFailed.should(true));
    assert!(!HideBehaviour::Never.should(false));
    assert!(!HideBehaviour::Never.should(true));
}

#[test]
fn data_raw_trims_then_escapes() {
    let d = Data::raw("  a<b \n");
    assert_eq!(d.html, "a&lt;b");
}

#[test]
fn data_stdout_stderr_wraps_the_error_stream() {
    let d = Data::stdout_stderr(" 42 \n", "warning: x<1\n");
    assert_eq!(d.html, "<div class=\"stderr\">warning: x&lt;1</div>42");
}

#[test]
fn truncate_lines_keeps_short_data_whole() {
    let d = Data { html: "a<br/>b<br/>c".to_string() };
    assert_eq!(d.truncate_lines(0), ("a<br/>b<br/>c".to_string(), 3));
    assert_eq!(d.truncate_lines(2), ("a<br/>b<br/>c".to_string(), 3));
    assert_eq!(d.truncate_lines(9), ("a<br/>b<br/>c".to_string(), 3));
}

#[test]
fn truncate_lines_cuts_at_the_limit() {
    let d = Data { html: "a<br/>b<br/>c".to_string() };
    assert_eq!(d.truncate_lines(1), ("a".to_string(), 2));
    let e = Data { html: "one<br/>two<br/>three<br/>four".to_string() };
    assert_eq!(e.truncate_lines(2), ("one<br/>two".to_string(), 3));
}

#[test]
fn render_cell_folded_is_a_placeholder() {
    let d = Data { html: "ignored".to_string() };
    let cell = render_cell("test-good", &[], d, None, true, 0);
    assert_eq!(cell, "\n\t\t\t<td class=\"test-cell test-good folded\">\n\t\t\t</td>\n\t\t");
}

#[test]
fn render_cell_lays_out_actions_data_and_note() {
    let d = Data { html: "hi".to_string() };
    let cell = render_cell("test-warn", &[action_copy()], d, Some("Ignored"), false, 0);
    let expected = "\n\t\t<td style=\"height: 1.1em; line-height: 1.1em;\" class=\"test-cell test-warn\">\n\t\t\t<div class=\"test-actions\">\n\t\t\t\t<div class=\"test-action material-icons\" onclick=\"trigger_copy()\" title=\"Copy contents\">file_copy</div>\n\t\t\t</div>\n\t\t\t<div class=\"test-data\">\n\t\t\t\thi\n\t\t\t</div>\n\t\t\t<div class=\"test-note\">Ignored</div>\n\t\t</td>\n\t";
    assert_eq!(cell, expected);
}

#[test]
fn render_cell_height_grows_with_kept_lines() {
    let d = Data { html: "a<br/>b<br/>c".to_string() };
    let cell = render_cell("", &[], d, None, false, 0);
    assert!(cell.contains("height: 3.3em;"));
    let e = Data { html: "a<br/>b<br/>c".to_string() };
    let cut = render_cell("", &[], e, None, false, 1);
    assert!(cut.contains("height: 2.2em;"));
}

#[test]
fn render_in_cell_shows_the_input() {
    let t = run(Verdict::Accepted { alternative: false }, "8\n", "");
    let cell = render_in_cell(&t, false, 0);
    assert!(cell.contains("\n\t\t\t\t5 3\n\t\t\t"));
    assert!(cell.contains("trigger_copy()"));
    assert!(cell.contains("trigger_edit()"));
}

#[test]
fn render_out_cell_classes_follow_the_verdict() {
    let good = render_out_cell(&run(Verdict::Accepted { alternative: false }, "8", ""), false, 0);
    assert!(good.contains("class=\"test-cell test-good\""));
    let alt = render_out_cell(&run(Verdict::Accepted { alternative: true }, "8", ""), false, 0);
    assert!(alt.contains("class=\"test-cell test-alt\""));
    assert!(alt.contains("trigger_del_alt()"));
    let wa = render_out_cell(&run(Verdict::WrongAnswer, "9", ""), false, 0);
    assert!(wa.contains("class=\"test-cell test-bad\""));
    assert!(wa.contains("trigger_set_alt()"));
    let re = render_out_cell(&run(Verdict::RuntimeError, "", "boom"), false, 0);
    assert!(re.contains("<div class=\"test-note\">Runtime Error</div>"));
    let tle = render_out_cell(&run(Verdict::TimeLimitExceeded, "", ""), false, 0);
    assert!(tle.contains("<div class=\"test-note\">Time Limit Exceeded</div>"));
    let ign = render_out_cell(&run(Verdict::IgnoredNoOut, "", ""), false, 0);
    assert!(ign.contains("class=\"test-cell test-warn\""));
    assert!(ign.contains("<div class=\"test-note\">Ignored</div>"));
}

#[test]
fn render_out_cell_always_offers_the_debuggers() {
    let cell = render_out_cell(&run(Verdict::WrongAnswer, "9", ""), false, 0);
    assert!(cell.contains("trigger_copy()"));
    assert!(cell.contains("trigger_gdb()"));
    assert!(cell.contains("trigger_rr()"));
}

#[test]
fn render_desired_cell_without_file_shows_a_note() {
    let mut t = run(Verdict::WrongAnswer, "9", "");
    t.desired = None;
    let cell = render_desired_cell(&t, false, 0);
    assert!(cell.contains("<div class=\"test-note\">File does not exist</div>"));
    assert!(cell.contains("trigger_edit()"));
    assert!(!cell.contains("trigger_copy()"));
}

#[test]
fn render_test_marks_failures_and_escapes_the_raw_output() {
    let t = run(Verdict::WrongAnswer, "a<b", "");
    let row = render_test(&t, true, HideBehaviour::Never, HideBehaviour::Never, 0);
    assert!(row.starts_with("\n\t\t<tr class=\"test-row test-row-failed\" data-in_path=\"/w/tests/1.in\" data-out_raw=\"a&lt;b\">"));
    assert!(row.ends_with("</tr>\n\t"));
}

#[test]
fn render_test_hides_accepted_rows_when_told_to() {
    let t = run(Verdict::Accepted { alternative: false }, "8", "");
    let hidden = render_test(&t, true, HideBehaviour::Never, HideBehaviour::IfAnyFailed, 0);
    assert_eq!(hidden, "");
    let shown = render_test(&t, false, HideBehaviour::Never, HideBehaviour::IfAnyFailed, 0);
    assert!(shown.contains("test-cell test-good"));
}

#[test]
fn render_test_folds_accepted_rows_when_told_to() {
    let t = run(Verdict::Accepted { alternative: false }, "8", "");
    let row = render_test(&t, true, HideBehaviour::Always, HideBehaviour::Never, 0);
    assert!(row.contains("folded"));
    assert!(!row.contains("test-actions"));
}

#[test]
fn render_test_table_concatenates_rows_under_one_failure_flag() {
    let tests = vec![
        run(Verdict::Accepted { alternative: false }, "8", ""),
        run(Verdict::WrongAnswer, "9", ""),
    ];
    let table = render_test_table(&tests, HideBehaviour::Never, HideBehaviour::IfAnyFailed, 0);
    assert!(!table.contains("test-good"));
    assert!(table.contains("test-bad"));
    let all_good = vec![run(Verdict::Accepted { alternative: false }, "8", "")];
    let table2 = render_test_table(&all_good, HideBehaviour::Never, HideBehaviour::IfAnyFailed, 0);
    assert!(table2.contains("test-good"));
}

#[test]
fn render_wraps_the_table_in_the_page() {
    let tests = vec![run(Verdict::Accepted { alternative: false }, "8", "")];
    let page = render(
        &tests,
        "td { color: red; }",
        "<link rel=\"stylesheet\"/>",
        "function new_start() {}",
        HideBehaviour::Never,
        HideBehaviour::Never,
        0,
    );
    assert!(page.starts_with("\n\t\t<html>\n\t\t\t<head>\n\t\t\t\t<style>td { color: red; }</style>\n\t\t\t\t<link rel=\"stylesheet\"/>\n\t\t\t\t<script>function new_start() {}</script>"));
    assert!(page.contains("<table class=\"test-table\">"));
    assert!(page.contains("test-cell test-good"));
    assert!(page.ends_with("</html>\n\t"));
}
