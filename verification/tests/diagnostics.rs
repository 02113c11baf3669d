use yamark::diagnostic::Diagnostic;
use yamark::diagnostic_order::{compare_diagnostics, sort_diagnostics};
use yamark::workspace::has_utf16_bom;

fn at(path: Option<&str>, line: usize, column: usize, note: bool, message: &str) -> Diagnostic {
    let d = if note { Diagnostic::note(message.to_string()) } else { Diagnostic::error(message.to_string()) };
    let d = d.at(line, column);
    match path {
        Some(p) => d.with_path(p),
        None => d,
    }
}

fn key(d: &Diagnostic) -> (Option<String>, usize, usize, String) {
    (d.path.clone(), d.line, d.column, d.message.clone())
}

#[test]
fn diagnostics_sort_by_path_position_severity_and_message() {
    let mut ds = vec![
        at(Some("b.yaml"), 1, 1, false, "x"),
        at(Some("a/b.yaml"), 3, 2, false, "y"),
        at(Some("a/b.yaml"), 3, 1, true, "n"),
        at(Some("a/b.yaml"), 3, 1, false, "z"),
        at(Some("a/b.yaml"), 3, 1, false, "m"),
        at(None, 9, 9, false, "no path"),
        at(Some("a/b.yaml"), 2, 7, false, "w"),
    ];
    sort_diagnostics(&mut ds);
    let keys: Vec<_> = ds.iter().map(key).collect();
    assert_eq!(
        keys,
        vec![
            (None, 9, 9, "no path".to_string()),
            (Some("a/b.yaml".to_string()), 2, 7, "w".to_string()),
            (Some("a/b.yaml".to_string()), 3, 1, "m".to_string()),
            (Some("a/b.yaml".to_string()), 3, 1, "z".to_string()),
            (Some("a/b.yaml".to_string()), 3, 1, "n".to_string()),
            (Some("a/b.yaml".to_string()), 3, 2, "y".to_string()),
            (Some("b.yaml".to_string()), 1, 1, "x".to_string()),
        ]
    );
}

#[test]
fn paths_compare_by_components() {
    // As strings "a-b" < "a/b"; as paths the component "a" comes first.
    let left = at(Some("a/b"), 1, 1, false, "m");
    let right = at(Some("a-b"), 1, 1, false, "m");
    assert_eq!(compare_diagnostics(&left, &right), -1);
    assert_eq!(compare_diagnostics(&right, &left), 1);
    assert_eq!(compare_diagnostics(&left, &left), 0);
}

#[test]
fn diagnostics_that_compare_equal_keep_their_order() {
    // `a//b` and `a/b` have the same components, so they compare equal.
    let mut ds = vec![at(Some("a//b"), 1, 1, false, "m"), at(Some("a/b"), 1, 1, false, "m"), at(Some("a"), 1, 1, false, "m")];
    sort_diagnostics(&mut ds);
    let paths: Vec<_> = ds.iter().map(|d| d.path.clone().unwrap()).collect();
    assert_eq!(paths, vec!["a", "a//b", "a/b"]);
    let mut ds = vec![at(Some("a/b"), 1, 1, false, "m"), at(Some("a//b"), 1, 1, false, "m")];
    sort_diagnostics(&mut ds);
    let paths: Vec<_> = ds.iter().map(|d| d.path.clone().unwrap()).collect();
    assert_eq!(paths, vec!["a/b", "a//b"]);
}

#[test]
fn utf16_byte_order_marks_are_detected() {
    assert!(has_utf16_bom(&[0xff, 0xfe, 0x41]));
    assert!(has_utf16_bom(&[0xfe, 0xff]));
    assert!(!has_utf16_bom(&[0xef, 0xbb, 0xbf, 0x41]));
    assert!(!has_utf16_bom(&[0xff]));
    assert!(!has_utf16_bom(b"a: 1\n"));
}
