use yamark::diagnostic::Severity;
use yamark::json_to_yaml::{JsonNode, JsonProperty, JsonValue};
use yamark::plugins::{
    builtin_formatter, colon_delimited_location, default_formatter_name, display_command, extract_notebook_cell_source,
    finish_process, formatter_failure_location, missing_executable_policy_for_configured_formatter,
    parenthesized_location, parse_number, ExternalFormatter, ExternalFormatterMode, ExternalFormatterOutput,
    MissingExecutablePolicy, PluginRegistry, ProcessResult,
};
use yamark::source::Span;

fn chars(s: &str) -> Vec<char> {
    s.chars().collect()
}

fn strings(v: &[&str]) -> Vec<String> {
    v.iter().map(|s| s.to_string()).collect()
}

#[test]
fn aliases_name_builtin_formatters() {
    assert_eq!(default_formatter_name("python").as_deref(), Some("ruff"));
    assert_eq!(default_formatter_name("r").as_deref(), Some("air"));
    assert_eq!(default_formatter_name("gql").as_deref(), Some("prettier-graphql"));
    assert_eq!(default_formatter_name("typescript").as_deref(), Some("prettier-ts"));
    assert_eq!(default_formatter_name("pcss").as_deref(), Some("prettier-postcss"));
    assert_eq!(default_formatter_name("mdformat").as_deref(), Some("mdformat"));
    assert_eq!(default_formatter_name("rust"), None);
    assert_eq!(default_formatter_name("Python"), None);
}

#[test]
fn builtin_formatter_commands() {
    let ruff = builtin_formatter("ruff").expect("ruff");
    assert_eq!(ruff.command, strings(&["ruff", "format", "--stdin-filename", "{path}", "-"]));
    assert_eq!(ruff.path_suffix, ".ipynb");
    assert_eq!(ruff.mode, ExternalFormatterMode::PythonNotebookCell);
    let css = builtin_formatter("prettier-postcss").expect("postcss");
    assert_eq!(css.command, strings(&["prettier", "--stdin-filepath", "{path}"]));
    assert_eq!(css.path_suffix, ".pcss");
    assert_eq!(css.mode, ExternalFormatterMode::Raw);
    assert!(builtin_formatter("python").is_none());
}

#[test]
fn numbers_in_messages() {
    assert_eq!(parse_number(&chars("x12:"), 1), Some((12, 3)));
    assert_eq!(parse_number(&chars("0"), 0), None);
    assert_eq!(parse_number(&chars("a"), 0), None);
    assert_eq!(parse_number(&chars("99999999999999999999999"), 0), None);
}

#[test]
fn failure_locations() {
    assert_eq!(parenthesized_location(&chars("SyntaxError: bad (3:14)")), Some((3, 14)));
    assert_eq!(colon_delimited_location(&chars("file.py:7:2: E999")), Some((7, 2)));
    assert_eq!(formatter_failure_location(&chars("x.py:1:1 then (4:5)")), Some((4, 5)));
    assert_eq!(formatter_failure_location(&chars("error: 0:3 (0:1)")), None);
    assert_eq!(formatter_failure_location(&chars("no location")), None);
}

#[test]
fn missing_executable_policies() {
    let ruff = builtin_formatter("ruff").unwrap();
    assert_eq!(missing_executable_policy_for_configured_formatter(&ruff), MissingExecutablePolicy::Skip);
    let custom = ExternalFormatter { command: strings(&["black", "-"]), path_suffix: ".py".to_string(), mode: ExternalFormatterMode::Raw };
    assert_eq!(missing_executable_policy_for_configured_formatter(&custom), MissingExecutablePolicy::Error);
    let empty = ExternalFormatter { command: vec![], path_suffix: String::new(), mode: ExternalFormatterMode::Raw };
    assert_eq!(missing_executable_policy_for_configured_formatter(&empty), MissingExecutablePolicy::Error);
}

#[test]
fn command_display() {
    assert_eq!(display_command("ruff", &strings(&["format", "-"])), "ruff format -");
    assert_eq!(display_command("mdformat", &vec![]), "mdformat");
}

#[test]
fn program_and_args_fill_in_the_path() {
    let ruff = builtin_formatter("ruff").unwrap();
    let (program, args) = ruff.program_and_args("doc.md.embedded.3.ipynb").expect("a command");
    assert_eq!(program, "ruff");
    assert_eq!(args, strings(&["format", "--stdin-filename", "doc.md.embedded.3.ipynb", "-"]));
    let empty = ExternalFormatter { command: vec![], path_suffix: String::new(), mode: ExternalFormatterMode::Raw };
    assert!(empty.program_and_args("p").is_none());
}

#[test]
fn notebook_input_wraps_the_code() {
    let raw = ExternalFormatterMode::Raw.process_input("x = 1\n").ok().unwrap();
    assert_eq!(raw, "x = 1\n");
    let notebook = ExternalFormatterMode::PythonNotebookCell.process_input("x = \"1\"\n").ok().unwrap();
    assert_eq!(
        notebook,
        "{\"cells\":[{\"cell_type\":\"code\",\"metadata\":{},\"outputs\":[],\"source\":\"x = \\\"1\\\"\\n\"}],\"metadata\":{},\"nbformat\":4,\"nbformat_minor\":5}"
    );
}

#[test]
fn notebook_input_escapes_control_characters() {
    let notebook = ExternalFormatterMode::PythonNotebookCell.process_input("a\tb\u{1}\\é").ok().unwrap();
    assert_eq!(
        notebook,
        "{\"cells\":[{\"cell_type\":\"code\",\"metadata\":{},\"outputs\":[],\"source\":\"a\\tb\\u0001\\\\é\"}],\"metadata\":{},\"nbformat\":4,\"nbformat_minor\":5}"
    );
}

fn node(value: JsonValue) -> JsonNode {
    JsonNode { value, range: Span { start: 0, end: 0 } }
}

fn prop(key: &str, value: JsonValue) -> JsonProperty {
    JsonProperty { key: chars(key), key_range: Span { start: 0, end: 0 }, value: node(value) }
}

fn notebook_with_source(source: JsonValue) -> JsonValue {
    let cell = JsonValue::Object(vec![prop("cell_type", JsonValue::String(chars("code"))), prop("source", source)]);
    JsonValue::Object(vec![prop("cells", JsonValue::Array(vec![node(cell)]))])
}

#[test]
fn notebook_cell_source_is_extracted() {
    let parsed = notebook_with_source(JsonValue::String(chars("x = 1\n")));
    assert_eq!(extract_notebook_cell_source(Ok(parsed)).ok().unwrap(), "x = 1\n");
    let lines = JsonValue::Array(vec![node(JsonValue::String(chars("a\n"))), node(JsonValue::String(chars("b")))]);
    assert_eq!(extract_notebook_cell_source(Ok(notebook_with_source(lines))).ok().unwrap(), "a\nb");
}

#[test]
fn notebook_errors() {
    let e = extract_notebook_cell_source(Err("EOF".to_string())).err().unwrap();
    assert_eq!(e.diagnostic.message, "embedded formatter emitted invalid notebook JSON: EOF");
    let e = extract_notebook_cell_source(Ok(JsonValue::Null)).err().unwrap();
    assert_eq!(e.diagnostic.message, "embedded formatter notebook output must contain cells");
    let e = extract_notebook_cell_source(Ok(JsonValue::Object(vec![prop("cells", JsonValue::Array(vec![]))])))
        .err()
        .unwrap();
    assert_eq!(e.diagnostic.message, "embedded formatter notebook output must contain exactly one cell");
    let e = extract_notebook_cell_source(Ok(notebook_with_source(JsonValue::Boolean(true)))).err().unwrap();
    assert_eq!(e.diagnostic.message, "embedded formatter notebook output source must be a string or string array");
    let bad_lines = JsonValue::Array(vec![node(JsonValue::Null)]);
    let e = extract_notebook_cell_source(Ok(notebook_with_source(bad_lines))).err().unwrap();
    assert_eq!(e.diagnostic.message, "embedded formatter notebook output source lines must be strings");
}

fn process(success: bool, code: Option<i32>, stderr: &str, stdout: Result<&str, &str>) -> ProcessResult {
    ProcessResult {
        success,
        exit_code: code,
        status_text: "signal: 9 (SIGKILL)".to_string(),
        stderr: stderr.to_string(),
        stdout: stdout.map(|s| s.to_string()).map_err(|s| s.to_string()),
        stdin_error: None,
    }
}

#[test]
fn finished_process_outcomes() {
    let args = strings(&["format", "-"]);
    match finish_process(MissingExecutablePolicy::Skip, "ruff", &args, "v.py", process(true, Some(0), "", Ok("ok\n"))) {
        Ok(ExternalFormatterOutput::Formatted(o)) => assert_eq!(o, "ok\n"),
        _ => panic!("expected formatted output"),
    }
    match finish_process(MissingExecutablePolicy::Skip, "ruff", &args, "v.py", process(false, Some(2), "  boom \n", Ok(""))) {
        Ok(ExternalFormatterOutput::FormatterFailed(m)) => assert_eq!(m, "boom"),
        _ => panic!("expected a failure"),
    }
    match finish_process(MissingExecutablePolicy::Skip, "ruff", &args, "v.py", process(false, Some(2), "", Ok(""))) {
        Ok(ExternalFormatterOutput::FormatterFailed(m)) => {
            assert_eq!(m, "command `ruff format -` exited with exit status 2 for v.py")
        },
        _ => panic!("expected a failure"),
    }
    match finish_process(MissingExecutablePolicy::Error, "ruff", &args, "v.py", process(false, None, "", Ok(""))) {
        Err(e) => assert_eq!(
            e.diagnostic.message,
            "embedded formatter failed: command `ruff format -` exited with signal: 9 (SIGKILL) for v.py"
        ),
        _ => panic!("expected an error"),
    }
    match finish_process(MissingExecutablePolicy::Error, "ruff", &args, "v.py", process(true, Some(0), "warn", Ok("x"))) {
        Err(e) => assert_eq!(e.diagnostic.message, "embedded formatter wrote to stderr: warn"),
        _ => panic!("expected an error"),
    }
    match finish_process(MissingExecutablePolicy::Error, "ruff", &args, "v.py", process(true, Some(0), "", Err("bad byte"))) {
        Err(e) => assert_eq!(e.diagnostic.message, "embedded formatter emitted invalid UTF-8: bad byte"),
        _ => panic!("expected an error"),
    }
}

#[test]
fn registry_plans_builtin_and_configured_runs() {
    let mut registry = PluginRegistry::new().with_source_path("docs/a.md");
    let plan = registry.plan_run("python", 4).expect("a built-in run");
    assert_eq!(plan.virtual_path, "docs/a.md.embedded.4.ipynb");
    assert_eq!(plan.missing_executable, MissingExecutablePolicy::Skip);
    assert!(registry.plan_run("rust", 4).is_none());
    registry.insert(
        "python".to_string(),
        ExternalFormatter { command: strings(&["black", "-"]), path_suffix: ".py".to_string(), mode: ExternalFormatterMode::Raw },
    );
    let plan = registry.plan_run("python", 9).expect("a configured run");
    assert_eq!(plan.formatter.command, strings(&["black", "-"]));
    assert_eq!(plan.missing_executable, MissingExecutablePolicy::Error);
    assert_eq!(plan.virtual_path, "docs/a.md.embedded.9.py");
    assert!(PluginRegistry::is_known_formatter(&strings(&["custom"]), "custom"));
    assert!(PluginRegistry::is_known_formatter(&vec![], "json"));
    assert!(!PluginRegistry::is_known_formatter(&vec![], "custom"));
}

#[test]
fn registry_records_notes_of_optional_formatters() {
    let mut registry = PluginRegistry::new();
    let plan = registry.plan_run("python", 2).unwrap();
    assert_eq!(plan.virtual_path, "yamark.embedded.2.ipynb");
    let r = registry.finish_run("python", &plan, 2, ExternalFormatterOutput::MissingExecutable);
    assert!(r.is_none());
    let r = registry.finish_run("python", &plan, 5, ExternalFormatterOutput::FormatterFailed("cell (3:7): bad".to_string()));
    assert!(r.is_none());
    let r = registry.finish_run("python", &plan, 6, ExternalFormatterOutput::Formatted("x = 1\n".to_string()));
    assert_eq!(r.as_deref(), Some("x = 1\n"));
    let notes = registry.diagnostics();
    assert_eq!(notes.len(), 2);
    assert_eq!(notes[0].severity, Severity::Note);
    assert_eq!(notes[0].line, 2);
    assert_eq!(notes[0].message, "missing optional embedded formatter `ruff`; preserved source");
    assert_eq!(notes[1].line, 5);
    assert_eq!(
        notes[1].message,
        "embedded formatter `ruff` failed at formatter input 3:7; left chunk unchanged"
    );
    assert_eq!(notes[1].render(), "5:1: note: embedded formatter `ruff` failed at formatter input 3:7; left chunk unchanged");
}

#[test]
fn registry_from_config_registers_each_entry() {
    let registry = PluginRegistry::from_config(vec![
        (
            "python".to_string(),
            ExternalFormatter { command: strings(&["black", "-"]), path_suffix: ".py".to_string(), mode: ExternalFormatterMode::Raw },
        ),
        (
            "sql".to_string(),
            ExternalFormatter { command: strings(&["prettier"]), path_suffix: ".sql".to_string(), mode: ExternalFormatterMode::Raw },
        ),
    ])
    .with_source_path("q.md");
    let plan = registry.plan_run("python", 3).expect("a configured run");
    assert_eq!(plan.formatter.command, strings(&["black", "-"]));
    assert_eq!(plan.missing_executable, MissingExecutablePolicy::Error);
    assert_eq!(plan.virtual_path, "q.md.embedded.3.py");
    let plan = registry.plan_run("sql", 1).expect("a configured run");
    assert_eq!(plan.missing_executable, MissingExecutablePolicy::Skip);
    assert!(registry.plan_run("rust", 1).is_none());
}
