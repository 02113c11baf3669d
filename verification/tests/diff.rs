use yamark::diagnostic::{Diagnostic, Severity};
use yamark::workspace::{
    apply_format_outcome, diff_hunks, diff_lines, diff_ops, hunk_ranges, linear_diff_ops, next_change, simple_diff,
    unified_range, DiffLine, DiffOp, FileFormatResult, FormatMode, FormatRun, FormatSummary, IndexedOutcome,
};

fn chars(s: &str) -> Vec<char> {
    s.chars().collect()
}

fn text(v: &[char]) -> String {
    v.iter().collect()
}

fn diff(path: &str, before: &str, after: &str) -> String {
    text(&simple_diff(&chars(path), &chars(before), &chars(after)))
}

#[test]
fn diff_lines_split_on_every_line_ending() {
    let lines = diff_lines(&chars("a\r\nb\rc\nd"));
    let seen: Vec<(String, bool)> = lines.iter().map(|l| (text(&l.text), l.has_line_ending)).collect();
    assert_eq!(
        seen,
        vec![
            ("a".to_string(), true),
            ("b".to_string(), true),
            ("c".to_string(), true),
            ("d".to_string(), false)
        ]
    );
    assert!(diff_lines(&chars("")).is_empty());
}

#[test]
fn identical_texts_have_no_hunks() {
    assert_eq!(diff("f.yaml", "a\nb\n", "a\nb\n"), "--- f.yaml\n+++ f.yaml\n");
}

#[test]
fn one_changed_line() {
    assert_eq!(
        diff("f.yaml", "a\nb\nc\n", "a\nx\nc\n"),
        "--- f.yaml\n+++ f.yaml\n@@ -1,3 +1,3 @@\n a\n-b\n+x\n c\n"
    );
}

#[test]
fn missing_final_newline_is_marked() {
    assert_eq!(
        diff("p", "a", "b"),
        "--- p\n+++ p\n@@ -1 +1 @@\n-a\n\\ No newline at end of file\n+b\n\\ No newline at end of file\n"
    );
}

#[test]
fn added_lines_to_empty_text() {
    assert_eq!(diff("p", "", "x\n"), "--- p\n+++ p\n@@ -1,0 +1 @@\n+x\n");
}

#[test]
fn distant_changes_make_two_hunks() {
    let before = "1\n2\n3\n4\n5\n6\n7\n8\n9\n10\n";
    let after = "one\n2\n3\n4\n5\n6\n7\n8\n9\nten\n";
    assert_eq!(
        diff("p", before, after),
        "--- p\n+++ p\n@@ -1,4 +1,4 @@\n-1\n+one\n 2\n 3\n 4\n@@ -7,4 +7,4 @@\n 7\n 8\n 9\n-10\n+ten\n"
    );
}

fn line(s: &str, end: bool) -> DiffLine {
    DiffLine { text: chars(s), has_line_ending: end }
}

#[test]
fn lcs_ops_prefer_removal_first() {
    let b = vec![line("a", true), line("b", true), line("c", true)];
    let a = vec![line("a", true), line("x", true), line("c", true)];
    let ops = diff_ops(&b, &a);
    assert_eq!(ops, vec![DiffOp::Equal(0, 0), DiffOp::Remove(1), DiffOp::Add(1), DiffOp::Equal(2, 2)]);
    assert_eq!(next_change(&ops, 0), Some(1));
    assert_eq!(next_change(&ops, 3), None);
    assert_eq!(diff_hunks(&ops, 3), vec![(0, 4)]);
    assert_eq!(hunk_ranges(&ops, 0, 4), (1, 3, 1, 3));
}

#[test]
fn linear_ops_keep_common_prefix_and_suffix() {
    let b = vec![line("a", true), line("b", true), line("c", true)];
    let a = vec![line("a", true), line("c", true)];
    let ops = linear_diff_ops(&b, &a);
    assert_eq!(ops, vec![DiffOp::Equal(0, 0), DiffOp::Remove(1), DiffOp::Equal(2, 1)]);
}

#[test]
fn unified_ranges() {
    assert_eq!(text(&unified_range(3, 0)), "3,0");
    assert_eq!(text(&unified_range(3, 1)), "3");
    assert_eq!(text(&unified_range(12, 7)), "12,7");
}

#[test]
fn summary_line() {
    let summary = FormatSummary { scanned: 12, formatted: 3, unchanged: 7, skipped: 1, failed: 1 };
    assert_eq!(summary.render(), "12 files scanned, 3 formatted, 7 unchanged, 1 skipped, 1 failed");
    assert_eq!(
        FormatSummary::default().render(),
        "0 files scanned, 0 formatted, 0 unchanged, 0 skipped, 0 failed"
    );
}

#[test]
fn outcomes_are_counted() {
    let mut run = FormatRun::default();
    let r = apply_format_outcome(
        &mut run,
        IndexedOutcome { index: 0, path: "a.yaml".to_string(), result: FileFormatResult::Skipped },
        FormatMode::Check,
    );
    assert!(r.is_none());
    let failed = Diagnostic::error("bad".to_string());
    let r = apply_format_outcome(
        &mut run,
        IndexedOutcome { index: 1, path: "b.yaml".to_string(), result: FileFormatResult::Failed(failed) },
        FormatMode::Check,
    );
    assert!(r.is_none());
    let r = apply_format_outcome(
        &mut run,
        IndexedOutcome {
            index: 2,
            path: "c.yaml".to_string(),
            result: FileFormatResult::Unchanged { diagnostics: vec![Diagnostic::note("n".to_string())] },
        },
        FormatMode::Check,
    );
    assert!(r.is_none());
    assert_eq!(run.summary.skipped, 1);
    assert_eq!(run.summary.failed, 1);
    assert_eq!(run.summary.unchanged, 1);
    assert_eq!(run.summary.formatted, 0);
    assert_eq!(run.diagnostics.len(), 2);
    assert_eq!(run.diagnostics[0].severity, Severity::Error);
    assert_eq!(run.diagnostics[1].severity, Severity::Note);
}

#[test]
fn changed_file_in_write_mode_is_handed_back() {
    let mut run = FormatRun::default();
    let r = apply_format_outcome(
        &mut run,
        IndexedOutcome {
            index: 0,
            path: "a.yaml".to_string(),
            result: FileFormatResult::Changed { diagnostics: vec![], output: "a: 1\n".to_string(), diff_input: None },
        },
        FormatMode::Write,
    )
    .expect("a write request");
    assert_eq!(r.path, "a.yaml");
    assert_eq!(r.output, "a: 1\n");
    assert_eq!(run.summary.formatted, 1);
    assert!(run.diffs.is_empty());
}

#[test]
fn changed_file_in_diff_mode_adds_a_diff() {
    let mut run = FormatRun::default();
    let r = apply_format_outcome(
        &mut run,
        IndexedOutcome {
            index: 0,
            path: "a.yaml".to_string(),
            result: FileFormatResult::Changed {
                diagnostics: vec![],
                output: "a: 1\n".to_string(),
                diff_input: Some("a:   1\n".to_string()),
            },
        },
        FormatMode::Diff,
    );
    assert!(r.is_none());
    assert_eq!(run.diffs, vec!["--- a.yaml\n+++ a.yaml\n@@ -1 +1 @@\n-a:   1\n+a: 1\n".to_string()]);
}

#[test]
fn large_texts_take_the_linear_script() {
    let before: String = (0..2001).map(|k| format!("line {k}\n")).collect();
    let after: String = (0..2001)
        .map(|k| if k == 1000 { "changed\n".to_string() } else { format!("line {k}\n") })
        .collect();
    assert_eq!(
        diff("big.yaml", &before, &after),
        "--- big.yaml\n+++ big.yaml\n@@ -998,7 +998,7 @@\n line 997\n line 998\n line 999\n-line 1000\n+changed\n line 1001\n line 1002\n line 1003\n"
    );
}
