use ink_rs::cli::{
    compile_events, compile_issues, diagnostic_issue, fallback_args, play_events, play_to_end,
    run_mode, strict_failure, ForwardedOptions, RunMode,
};
use ink_rs::{compile_ink, load_ink_doc_from_str, CliEvent, CompileOptions, Story};

#[test]
fn issue_line_of_a_diagnostic() {
    let out = compile_ink("text\n\n* choice\n", CompileOptions::default()).unwrap();
    assert_eq!(
        diagnostic_issue(&out.diagnostics[0]),
        "Warning: 3:1 unsupported ink syntax in phase-2 scaffold: `* choice` (UNIMPLEMENTED_SYNTAX)"
    );
}

#[test]
fn compile_issues_put_visit_warning_first() {
    let out = compile_ink("* a\n", CompileOptions::default()).unwrap();
    let issues = compile_issues(&out.diagnostics, true);
    assert_eq!(issues.len(), 2);
    assert_eq!(
        issues[0],
        "WARNING: -c/--count-all-visits is accepted but not implemented in rust compiler backend"
    );
    assert!(issues[1].starts_with("Warning: 1:1 "));
    assert!(compile_issues(&out.diagnostics, false).len() == 1);
}

#[test]
fn compile_events_wrap_issues() {
    let none = compile_events(&vec![]);
    assert_eq!(
        none,
        vec![
            CliEvent::CompileSuccess { compile_success: true },
            CliEvent::ExportComplete { export_complete: true },
        ]
    );
    let some = compile_events(&vec!["x".to_string()]);
    assert_eq!(some.len(), 3);
    assert_eq!(some[1], CliEvent::Issues { issues: vec!["x".to_string()] });
}

#[test]
fn play_to_end_reads_lines_and_reports_warnings() {
    let raw = r#"{"inkVersion":21,"root":["^A","\n","ev","^B",null]}"#;
    let mut story = Story::from_doc(load_ink_doc_from_str(raw).unwrap());
    let mut issues = vec!["first".to_string()];
    let (lines, warnings) = play_to_end(&mut story, true, &mut issues);
    assert_eq!(lines, vec!["A\n".to_string(), "B".to_string()]);
    assert_eq!(warnings, vec!["unimplemented command token encountered: ev".to_string()]);
    assert_eq!(
        issues,
        vec![
            "first".to_string(),
            "WARNING: -k/--keep-open is accepted but interactive input loop is not implemented in rust backend".to_string(),
            "WARNING: unimplemented command token encountered: ev".to_string(),
        ]
    );
    assert!(!story.can_continue());
    assert!(story.take_warnings().is_empty());
    assert_eq!(story.current_text(), "B");
    assert_eq!(story.current_text, "B");
}

#[test]
fn run_mode_follows_input_and_options() {
    assert_eq!(
        run_mode(true, true, false, false),
        Err("Cannot show stats for .json, only for .ink".to_string())
    );
    assert_eq!(run_mode(false, true, false, true), Ok(RunMode::Fallback));
    assert_eq!(run_mode(true, false, true, false), Ok(RunMode::Fallback));
    assert_eq!(run_mode(true, false, false, true), Ok(RunMode::PlayJson));
    assert_eq!(run_mode(false, false, false, true), Ok(RunMode::PlayInk));
    assert_eq!(run_mode(false, false, false, false), Ok(RunMode::Compile));
}

#[test]
fn strict_failure_counts_issues() {
    let issues = vec!["a".to_string(), "b".to_string(), "c".to_string()];
    assert_eq!(
        strict_failure(true, &issues),
        Some("strict mode failed: encountered 3 diagnostics/warnings".to_string())
    );
    assert_eq!(strict_failure(false, &issues), None);
    assert_eq!(strict_failure(true, &Vec::new()), None);
}

#[test]
fn play_events_give_text_then_issues() {
    let lines = vec!["Hello\n".to_string(), "World\n".to_string()];
    let events = play_events(&lines, &Vec::new());
    assert_eq!(
        events,
        vec![
            CliEvent::Text { text: "Hello\n".to_string() },
            CliEvent::Text { text: "World\n".to_string() },
        ]
    );
    let issues = vec!["WARNING: w".to_string()];
    let events = play_events(&lines, &issues);
    assert_eq!(events.len(), 3);
    assert_eq!(events[2], CliEvent::Issues { issues });
}

#[test]
fn fallback_args_forward_options_in_order() {
    let all = ForwardedOptions {
        output_file: Some("out.json".to_string()),
        play: true,
        json: true,
        stats: true,
        verbose: true,
        count_all_visits: true,
        keep_open: true,
        plugin_dirs: vec!["p1".to_string(), "p2".to_string()],
        input: "story.ink".to_string(),
    };
    assert_eq!(
        fallback_args(&all),
        vec!["-o", "out.json", "-p", "-j", "-s", "-v", "-c", "-k", "-x", "p1", "-x", "p2", "story.ink"]
    );
    let none = ForwardedOptions {
        output_file: None,
        play: false,
        json: false,
        stats: true,
        verbose: false,
        count_all_visits: false,
        keep_open: false,
        plugin_dirs: Vec::new(),
        input: "s.ink".to_string(),
    };
    assert_eq!(fallback_args(&none), vec!["-s", "s.ink"]);
}
