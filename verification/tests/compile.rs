use cargo_pretty::compile::{
    started_crate, stderr_line, strip_ansi, to_warning, CargoMessage, Compile, Diagnostic,
    DiagnosticLevel, DiagnosticSpan,
};
use cargo_pretty::events::{Event, Warning};
use cargo_pretty::metadata::{Target, TargetKind};
use cargo_pretty::names::Names;

fn names() -> Names {
    Names::from_pairs(&vec![
        ("id-a".to_string(), "old".to_string()),
        ("id-b".to_string(), "b".to_string()),
        ("id-a".to_string(), "a".to_string()),
    ])
}

fn diagnostic(level: DiagnosticLevel, rendered: Option<&str>) -> Diagnostic {
    Diagnostic {
        message: "unused variable".to_string(),
        level,
        spans: vec![],
        children: vec![],
        rendered: rendered.map(str::to_string),
    }
}

fn artifact(id: &str, kind: TargetKind, fresh: bool, executable: Option<&str>) -> CargoMessage {
    CargoMessage::CompilerArtifact {
        package_id: id.to_string(),
        target: Target {
            name: "target-name".to_string(),
            kind: vec![TargetKind::Other, kind],
        },
        fresh,
        executable: executable.map(str::to_string),
    }
}

#[test]
fn escape_sequences_end_with_a_letter() {
    assert_eq!(strip_ansi("\u{1b}[1m\u{1b}[32mok\u{1b}[0m!"), "ok!");
    assert_eq!(strip_ansi("\u{1b}[38;5;12mé→"), "é→");
    assert_eq!(strip_ansi("cut \u{1b}[1;"), "cut ");
    assert_eq!(strip_ansi("\u{1b}é\u{1b}ZA"), "A");
}

#[test]
fn stripping_leaves_plain_text_and_strips_once_for_all() {
    let plain = "no escapes [32m here\n";
    assert_eq!(strip_ansi(plain), plain);
    let once = strip_ansi("a\u{1b}[2Kb\u{1b}");
    assert_eq!(once, "ab");
    assert_eq!(strip_ansi(&once), once);
    assert!(!once.contains('\u{1b}'));
}

#[test]
fn status_lines_name_the_crate() {
    assert_eq!(
        started_crate("\u{1b}[1m\u{1b}[92m   Compiling\u{1b}[0m serde v1.0.2"),
        Some("serde".to_string())
    );
    assert_eq!(started_crate("Compiling a"), Some("a".to_string()));
    assert_eq!(started_crate("Compiling   \ta\tb"), Some("a".to_string()));
    assert_eq!(started_crate("Compiling "), None);
    assert_eq!(started_crate("Compiling"), None);
    assert_eq!(started_crate("    Finished dev"), None);
    assert_eq!(started_crate("x Compiling a"), None);
}

#[test]
fn words_end_at_white_space_of_any_kind() {
    for c in '\0'..=char::MAX {
        if c == '\u{1b}' {
            continue;
        }
        let expected = if c.is_whitespace() {
            "a".to_string()
        } else {
            format!("a{c}b")
        };
        assert_eq!(started_crate(&format!("Compiling a{c}b")), Some(expected));
    }
    for c in [
        '\t', '\n', '\u{b}', '\u{c}', '\r', ' ', '\u{85}', '\u{a0}', '\u{1680}', '\u{2000}',
        '\u{200a}', '\u{2028}', '\u{2029}', '\u{202f}', '\u{205f}', '\u{3000}',
    ] {
        assert_eq!(
            started_crate(&format!("{c}Compiling x{c}")),
            Some("x".to_string())
        );
    }
    for c in ['\u{8}', '\u{e}', '\u{200b}', '\u{180e}', '\u{feff}', '_'] {
        assert_eq!(started_crate(&format!("{c}Compiling x")), None);
    }
}

#[test]
fn stderr_is_kept_line_by_line() {
    let mut full = String::new();
    assert_eq!(
        stderr_line(&mut full, "  Compiling a v1", true),
        Some(Event::Started("a".to_string()))
    );
    assert_eq!(stderr_line(&mut full, "  Compiling b v1", false), None);
    assert_eq!(stderr_line(&mut full, "", true), None);
    assert_eq!(full, "  Compiling a v1\n  Compiling b v1\n\n");
}

#[test]
fn warnings_point_at_the_first_primary_span_and_the_first_help() {
    let span = |file: &str, line: usize, is_primary: bool| DiagnosticSpan {
        file_name: file.to_string(),
        line_start: line,
        is_primary,
    };
    let mut d = diagnostic(DiagnosticLevel::Warning, Some("full text"));
    d.spans = vec![
        span("a.rs", 1, false),
        span("b.rs", 120, true),
        span("c.rs", 3, true),
    ];
    let child = |level, message: &str| {
        let mut c = diagnostic(level, None);
        c.message = message.to_string();
        c
    };
    d.children = vec![
        child(DiagnosticLevel::Note, "a note"),
        child(DiagnosticLevel::Help, "do this"),
        child(DiagnosticLevel::Help, "or that"),
    ];
    assert_eq!(
        to_warning(&d),
        Warning {
            message: "unused variable".to_string(),
            location: Some("b.rs:120".to_string()),
            help: Some("do this".to_string()),
            rendered: "full text".to_string(),
        }
    );
    assert_eq!(
        to_warning(&diagnostic(DiagnosticLevel::Warning, None)),
        Warning {
            message: "unused variable".to_string(),
            location: None,
            help: None,
            rendered: String::new(),
        }
    );
}

#[test]
fn artifacts_are_reported_by_crate_name() {
    let mut run = Compile::new();
    assert_eq!(
        run.on_message(&names(), artifact("id-a", TargetKind::Bin, false, Some("/t/a")), true),
        vec![Event::Artifact {
            id: "id-a".to_string(),
            name: "a".to_string(),
            fresh: false,
            real: true,
        }]
    );
    assert_eq!(
        run.on_message(&names(), artifact("id-x", TargetKind::Other, true, None), true),
        vec![Event::Artifact {
            id: "id-x".to_string(),
            name: "target-name".to_string(),
            fresh: true,
            real: true,
        }]
    );
    assert_eq!(run.executables, vec!["/t/a".to_string()]);
}

#[test]
fn a_compiled_build_script_is_about_to_run() {
    let mut run = Compile::new();
    assert_eq!(
        run.on_message(&names(), artifact("id-b", TargetKind::CustomBuild, false, None), true),
        vec![
            Event::ScriptRunning("b".to_string()),
            Event::Artifact {
                id: "id-b".to_string(),
                name: "b".to_string(),
                fresh: false,
                real: false,
            }
        ]
    );
    assert_eq!(
        run.on_message(&names(), artifact("id-b", TargetKind::CustomBuild, true, None), true),
        vec![Event::Artifact {
            id: "id-b".to_string(),
            name: "b".to_string(),
            fresh: true,
            real: false,
        }]
    );
    let executed = |id: &str| CargoMessage::BuildScriptExecuted {
        package_id: id.to_string(),
    };
    assert_eq!(
        run.on_message(&names(), executed("id-b"), true),
        vec![Event::ScriptExecuted("b".to_string())]
    );
    assert_eq!(
        run.on_message(&names(), executed("id-x"), true),
        vec![Event::ScriptExecuted("id-x".to_string())]
    );
}

#[test]
fn only_errors_and_warnings_are_reported() {
    let mut run = Compile::new();
    let mut send = |level, rendered| {
        run.on_message(
            &names(),
            CargoMessage::CompilerMessage(diagnostic(level, rendered)),
            true,
        )
    };
    assert_eq!(
        send(DiagnosticLevel::Error, Some("error: x\n")),
        vec![Event::Error("error: x\n".to_string())]
    );
    assert_eq!(send(DiagnosticLevel::Error, None), vec![]);
    assert_eq!(
        send(DiagnosticLevel::Warning, None),
        vec![Event::Warning(Warning {
            message: "unused variable".to_string(),
            location: None,
            help: None,
            rendered: String::new(),
        })]
    );
    for level in [
        DiagnosticLevel::Ice,
        DiagnosticLevel::FailureNote,
        DiagnosticLevel::Note,
        DiagnosticLevel::Help,
        DiagnosticLevel::Other,
    ] {
        assert_eq!(send(level, Some("text")), vec![]);
    }
    assert_eq!(run.errors, "error: x\n");
    assert!(run.ok);
}

#[test]
fn a_quiet_run_reports_nothing_but_still_collects() {
    let mut run = Compile::new();
    let quiet = [
        artifact("id-a", TargetKind::Bin, false, Some("/t/one")),
        CargoMessage::CompilerMessage(diagnostic(DiagnosticLevel::Error, Some("bad;"))),
        artifact("id-b", TargetKind::Bin, true, Some("/t/two")),
        CargoMessage::BuildFinished { success: false },
        CargoMessage::Other,
    ];
    for message in quiet {
        assert_eq!(run.on_message(&names(), message, false), vec![]);
    }
    assert_eq!(run.finish("stderr".to_string(), false), None);
    assert!(!run.ok);
    assert_eq!(run.executables, vec!["/t/one".to_string(), "/t/two".to_string()]);
    assert_eq!(run.errors, "bad;stderr");
}

#[test]
fn stderr_is_reported_where_the_build_failed() {
    let mut run = Compile::new();
    assert_eq!(run.finish("Finished\n".to_string(), true), None);
    assert_eq!(run.errors, "");
    run.on_message(&names(), CargoMessage::BuildFinished { success: false }, true);
    assert_eq!(run.finish(" \n\u{3000}\t".to_string(), true), None);
    assert_eq!(run.errors, "");
    assert_eq!(
        run.finish("error: no\n".to_string(), true),
        Some(Event::Error("error: no\n".to_string()))
    );
    assert_eq!(run.errors, "error: no\n");
}

#[test]
fn a_cargo_that_dies_without_a_word_has_failed() {
    let mut run = Compile::new();
    run.exited(false);
    assert!(!run.ok);
    assert_eq!(
        run.finish("error: unexpected argument\n".to_string(), true),
        Some(Event::Error("error: unexpected argument\n".to_string()))
    );
    assert_eq!(run.errors, "error: unexpected argument\n");

    let mut run = Compile::new();
    run.on_message(&names(), CargoMessage::BuildFinished { success: true }, true);
    run.exited(false);
    assert!(!run.ok);

    let mut run = Compile::new();
    run.on_message(&names(), CargoMessage::BuildFinished { success: false }, true);
    run.exited(true);
    assert!(!run.ok);
}

#[test]
fn a_run_that_succeeds_has_no_error_text() {
    let mut run = Compile::new();
    let error = diagnostic(DiagnosticLevel::Error, Some("error: x\n"));
    run.on_message(&names(), CargoMessage::CompilerMessage(error), true);
    assert_eq!(run.errors, "error: x\n");
    run.on_message(&names(), CargoMessage::BuildFinished { success: true }, true);
    run.exited(true);
    assert_eq!(run.finish("Finished\n".to_string(), true), None);
    assert!(run.ok);
    assert_eq!(run.errors, "");
}
