use fecho::config::{FechoError, Mode, RunConfig, Separator, mode_of};
use fecho::continuous::{ContinuousEcho, process_continuous};
use fecho::emit::{join_inputs, process_direct_input, process_input_source, process_stdin};

fn strings(items: &[&str]) -> Vec<String> {
    items.iter().map(|s| s.to_string()).collect()
}

fn direct_config(inputs: &[&str], number: usize, separator: Separator) -> RunConfig {
    RunConfig {
        inputs: strings(inputs),
        file: false,
        number,
        continuous: false,
        separator,
        top: None,
    }
}

#[test]
fn direct_two_reps_with_text_separator() {
    let c = direct_config(&["hello", "world"], 2, Separator::PresentText("--".to_string()));
    let out = process_direct_input(&c);
    assert_eq!(out, strings(&["hello world", "--", "hello world"]));
}

#[test]
fn direct_counts_without_separator() {
    let c = direct_config(&["a", "b"], 3, Separator::Absent);
    let out = process_direct_input(&c);
    assert_eq!(out, strings(&["a b", "a b", "a b"]));
}

#[test]
fn direct_default_separator_prints_blank_line() {
    let c = direct_config(&["x"], 2, Separator::PresentDefault);
    let out = process_direct_input(&c);
    assert_eq!(out, strings(&["x", "", "x"]));
}

#[test]
fn direct_empty_text_separator_still_prints() {
    let c = direct_config(&["x"], 2, Separator::PresentText(String::new()));
    let out = process_direct_input(&c);
    assert_eq!(out, strings(&["x", "", "x"]));
}

#[test]
fn direct_single_repetition_has_no_separator() {
    let c = direct_config(&["only"], 1, Separator::PresentText("--".to_string()));
    let out = process_direct_input(&c);
    assert_eq!(out, strings(&["only"]));
}

#[test]
fn join_handles_empty_and_single_input() {
    assert_eq!(join_inputs(&strings(&[])), "".to_string());
    assert_eq!(join_inputs(&strings(&["one"])), "one".to_string());
    assert_eq!(join_inputs(&strings(&["a", "b", "c"])), "a b c".to_string());
}

#[test]
fn truncation_caps_to_exactly_top_lines() {
    let lines = strings(&["1", "2", "3", "4", "5"]);
    let out = process_input_source(&lines, Some(3));
    assert_eq!(out, strings(&["1", "2", "3"]));
}

#[test]
fn truncation_keeps_all_lines_when_top_large_or_absent() {
    let lines = strings(&["1", "2", "3"]);
    assert_eq!(process_input_source(&lines, Some(3)), lines);
    assert_eq!(process_input_source(&lines, Some(10)), lines);
    assert_eq!(process_input_source(&lines, None), lines);
}

#[test]
fn stdin_repeats_capped_buffer_with_separator() {
    let c = RunConfig {
        inputs: Vec::new(),
        file: false,
        number: 2,
        continuous: false,
        separator: Separator::PresentText("=".to_string()),
        top: Some(2),
    };
    let lines = strings(&["1", "2", "3"]);
    let out = process_stdin(&lines, &c);
    assert_eq!(out, strings(&["1", "2", "=", "1", "2"]));
}

#[test]
fn stdin_empty_buffer_still_separates_repetitions() {
    let c = RunConfig {
        inputs: Vec::new(),
        file: false,
        number: 2,
        continuous: false,
        separator: Separator::PresentText("s".to_string()),
        top: None,
    };
    let out = process_stdin(&Vec::new(), &c);
    assert_eq!(out, strings(&["s"]));
}

#[test]
fn continuous_separates_after_each_full_group() {
    let lines = strings(&["1", "2", "3", "4", "5", "6", "7"]);
    let sep = Separator::PresentText("--".to_string());
    let out = process_continuous(&lines, Some(3), &sep);
    assert_eq!(out, strings(&["1", "2", "3", "--", "4", "5", "6", "--", "7"]));
}

#[test]
fn continuous_separates_even_when_group_ends_stream() {
    let lines = strings(&["1", "2", "3"]);
    let sep = Separator::PresentDefault;
    let out = process_continuous(&lines, Some(3), &sep);
    assert_eq!(out, strings(&["1", "2", "3", ""]));
}

#[test]
fn continuous_without_top_never_separates() {
    let lines = strings(&["a", "b", "c", "d"]);
    let sep = Separator::PresentText("--".to_string());
    let out = process_continuous(&lines, None, &sep);
    assert_eq!(out, lines);
}

#[test]
fn continuous_step_emits_separator_at_countdown_end() {
    let sep = Separator::PresentText("|".to_string());
    let mut st = ContinuousEcho::new(Some(2));
    assert_eq!(st.step(&"a".to_string(), &sep), strings(&["a"]));
    assert_eq!(st.step(&"b".to_string(), &sep), strings(&["b", "|"]));
    assert_eq!(st.step(&"c".to_string(), &sep), strings(&["c"]));
}

#[test]
fn mode_dispatch_selects_exactly_one_path() {
    let mut c = direct_config(&["w"], 1, Separator::Absent);
    assert_eq!(mode_of(&c), Mode::Direct);
    c.inputs = Vec::new();
    assert_eq!(mode_of(&c), Mode::Stdin);
    c.file = true;
    assert_eq!(mode_of(&c), Mode::Files);
    c.inputs = strings(&["a.txt"]);
    assert_eq!(mode_of(&c), Mode::Files);
}

#[test]
fn error_messages_name_the_failure() {
    let io = FechoError::IoError("broken pipe".to_string());
    assert_eq!(io.message(), "IO error: broken pipe".to_string());
    let access = FechoError::AccessingFilesError;
    assert_eq!(access.message(), "Process aborted, see above for details".to_string());
}
