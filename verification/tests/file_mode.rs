use fecho::config::{RunConfig, Separator};
use fecho::files::{FileInput, FileRead, process_files, report_error_line, report_errors};

fn strings(items: &[&str]) -> Vec<String> {
    items.iter().map(|s| s.to_string()).collect()
}

fn file_config(paths: &[&str], number: usize, top: Option<usize>, separator: Separator) -> RunConfig {
    RunConfig {
        inputs: strings(paths),
        file: true,
        number,
        continuous: false,
        separator,
        top,
    }
}

fn content(path: &str, lines: &[&str]) -> FileInput {
    FileInput { path: path.to_string(), read: FileRead::Content(strings(lines)) }
}

fn failure(path: &str, desc: &str) -> FileInput {
    FileInput { path: path.to_string(), read: FileRead::Failure(desc.to_string()) }
}

#[test]
fn files_repeat_with_separators_at_interior_boundaries() {
    let c = file_config(&["a.txt", "b.txt"], 2, Some(2), Separator::PresentText("-".to_string()));
    let inputs = vec![content("a.txt", &["1", "2", "3"]), content("b.txt", &["x"])];
    let out = process_files(&inputs, &c).unwrap();
    assert_eq!(out, strings(&["1", "2", "-", "x", "-", "1", "2", "-", "x"]));
}

#[test]
fn files_single_pass_without_separator() {
    let c = file_config(&["a.txt"], 1, None, Separator::Absent);
    let inputs = vec![content("a.txt", &["only", "lines"])];
    let out = process_files(&inputs, &c).unwrap();
    assert_eq!(out, strings(&["only", "lines"]));
}

#[test]
fn missing_file_aborts_with_padded_diagnostic() {
    let c = file_config(&["a.txt", "b.txt"], 1, None, Separator::Absent);
    let inputs = vec![content("a.txt", &["1", "2", "3"]), failure("b.txt", "No such file")];
    let err = process_files(&inputs, &c).unwrap_err();
    assert_eq!(err, strings(&["b.txt                | Error: No such file"]));
}

#[test]
fn preflight_reports_every_missing_file() {
    let c = file_config(&["a.txt", "b.txt", "c.txt"], 3, Some(1), Separator::PresentDefault);
    let inputs = vec![
        failure("a.txt", "denied"),
        content("b.txt", &["kept out"]),
        failure("c.txt", "gone"),
    ];
    let err = process_files(&inputs, &c).unwrap_err();
    assert_eq!(
        err,
        strings(&[
            "a.txt                | Error: denied",
            "c.txt                | Error: gone",
        ])
    );
}

#[test]
fn report_lists_only_failures_in_order() {
    let inputs = vec![
        content("ok.txt", &[]),
        failure("one.txt", "e1"),
        failure("two.txt", "e2"),
    ];
    let lines = report_errors(&inputs);
    assert_eq!(
        lines,
        strings(&[
            "one.txt              | Error: e1",
            "two.txt              | Error: e2",
        ])
    );
}

#[test]
fn long_paths_are_not_padded() {
    let path = "a/very/long/path/to/somewhere.txt".to_string();
    let line = report_error_line(&path, &"oops".to_string());
    assert_eq!(line, "a/very/long/path/to/somewhere.txt | Error: oops".to_string());
}

#[test]
fn empty_file_contributes_no_lines_but_keeps_boundaries() {
    let c = file_config(&["a.txt", "b.txt"], 1, None, Separator::PresentText("=".to_string()));
    let inputs = vec![content("a.txt", &[]), content("b.txt", &["z"])];
    let out = process_files(&inputs, &c).unwrap();
    assert_eq!(out, strings(&["=", "z"]));
}
