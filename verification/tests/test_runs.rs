use cargo_pretty::events::{Event, Outcome, Took};
use cargo_pretty::test::{
    outcome_from, panic_location, read_message, rerun_args, retry, test_args, tries_next, Rerun,
    Run, TestMessage, TestRun,
};

fn failed(location: Option<&str>, stdout: &str) -> Outcome {
    Outcome::Failed {
        location: location.map(str::to_string),
        stdout: stdout.to_string(),
    }
}

fn seconds(s: f64) -> Took {
    Took::SecondsBits(s.to_bits())
}

#[test]
fn the_panic_hook_tells_the_place() {
    assert_eq!(
        panic_location("thread 'x' panicked at src/lib.rs:12:5:\nboom\n"),
        Some("src/lib.rs:12".to_string())
    );
    assert_eq!(
        panic_location("panicked at C:\\x\\lib.rs:1:2:"),
        Some("C:\\x\\lib.rs:1".to_string())
    );
    assert_eq!(
        panic_location("a\npanicked at one.rs:1:1:::\npanicked at two.rs:2:2:"),
        Some("one.rs:1".to_string())
    );
    assert_eq!(panic_location("panicked at :1:2:"), Some(":1".to_string()));
    assert_eq!(panic_location("panicked at lib.rs:12"), None);
    assert_eq!(panic_location("panicked at lib.rs"), None);
    assert_eq!(panic_location("panicked at \nlib.rs:1:2"), None);
    assert_eq!(panic_location("fine"), None);
    assert_eq!(panic_location(""), None);
}

#[test]
fn outcomes_follow_the_event() {
    assert_eq!(outcome_from("ok", "x".to_string()), Outcome::Passed);
    assert_eq!(outcome_from("ignored", "x".to_string()), Outcome::Ignored);
    assert_eq!(
        outcome_from("failed", "panicked at f.rs:3:4:\nm".to_string()),
        failed(Some("f.rs:3"), "panicked at f.rs:3:4:\nm")
    );
}

#[test]
fn messages_are_read_member_by_member() {
    let value = serde_json::from_str(
        r#"{"type":"test","event":"ok","name":"a::b","exec_time":0.25,"stdout":"x\n","test_count":7}"#,
    )
    .unwrap();
    assert_eq!(
        read_message(&value),
        TestMessage {
            kind: Some("test".to_string()),
            event: Some("ok".to_string()),
            name: Some("a::b".to_string()),
            test_count: Some(7),
            exec_time: Some(0.25f64.to_bits()),
            stdout: Some("x\n".to_string()),
        }
    );
    let none = TestMessage {
        kind: None,
        event: None,
        name: None,
        test_count: None,
        exec_time: None,
        stdout: None,
    };
    for text in [
        "[]",
        "null",
        r#"{"type":1,"event":null,"name":[],"test_count":"7","exec_time":"1","stdout":{}}"#,
        r#"{"test_count":-1}"#,
    ] {
        assert_eq!(read_message(&serde_json::from_str(text).unwrap()), none);
    }
}

#[test]
fn lines_of_a_test_binary_become_events() {
    let mut run = TestRun::new();
    assert_eq!(
        run.on_line(r#"{ "type": "suite", "event": "started", "test_count": 3 }"#),
        Some(Event::SuiteStarted { total: 3 })
    );
    assert_eq!(
        run.on_line(r#"{ "type": "test", "event": "started", "name": "a" }"#),
        Some(Event::TestStarted("a".to_string()))
    );
    assert_eq!(
        run.on_line(r#"{ "type": "test", "name": "a", "event": "ok", "exec_time": 1.5 }"#),
        Some(Event::TestFinished {
            name: "a".to_string(),
            took: seconds(1.5),
            outcome: Outcome::Passed,
        })
    );
    assert_eq!(
        run.on_line(r#"{ "type": "test", "name": "b", "event": "ignored" }"#),
        Some(Event::TestFinished {
            name: "b".to_string(),
            took: seconds(0.0),
            outcome: Outcome::Ignored,
        })
    );
    assert!(run.ok);
    assert_eq!(
        run.on_line(
            r#"{ "type": "test", "name": "c", "event": "failed", "exec_time": 2, "stdout": "panicked at x.rs:1:2:\nno" }"#
        ),
        Some(Event::TestFinished {
            name: "c".to_string(),
            took: seconds(2.0),
            outcome: failed(Some("x.rs:1"), "panicked at x.rs:1:2:\nno"),
        })
    );
    assert!(!run.ok);
    run.on_line(r#"{ "type": "test", "name": "a", "event": "ok" }"#);
    assert!(!run.ok);
}

#[test]
fn other_lines_say_nothing() {
    let mut run = TestRun::new();
    for line in [
        "",
        "printed by a test",
        r#"{ "type": "suite", "event": "started" }"#,
        r#"{ "type": "suite", "event": "failed", "passed": 1 }"#,
        r#"{ "type": "test", "event": "started" }"#,
        r#"{ "type": "test", "event": "timeout", "name": "a" }"#,
        r#"{ "type": "bench", "event": "ok", "name": "a" }"#,
        r#"{ "type": "test", "event": "failed""#,
    ] {
        assert_eq!(run.on_line(line), None);
    }
    assert!(run.ok);
}

#[test]
fn a_finished_test_without_members_has_defaults() {
    let mut run = TestRun::new();
    assert_eq!(
        run.on_message(TestMessage {
            kind: Some("test".to_string()),
            event: Some("failed".to_string()),
            name: None,
            test_count: None,
            exec_time: None,
            stdout: None,
        }),
        Some(Event::TestFinished {
            name: String::new(),
            took: seconds(0.0),
            outcome: failed(None, ""),
        })
    );
}

#[test]
fn the_run_stops_at_the_first_failure() {
    let mut run = Run::new(&vec!["--nocapture".to_string()]);
    assert!(run.finished(true));
    assert!(!run.finished(false));
    assert!(!run.all_ok);
}

#[test]
fn the_run_goes_on_where_asked_to() {
    let mut run = Run::new(&vec!["x".to_string(), "--no-fail-fast".to_string()]);
    assert!(run.finished(false));
    assert!(run.finished(true));
    assert!(!run.all_ok);
    let mut run = Run::new(&vec![]);
    assert!(run.finished(true));
    assert!(run.all_ok);
}

#[test]
fn a_rerun_hears_of_its_own_test_alone() {
    let mut rerun = Rerun::new("a");
    rerun.on_line("noise");
    rerun.on_line(r#"{"type":"test","event":"started","name":"a"}"#);
    rerun.on_line(r#"{"type":"test","event":"ok","name":"aa"}"#);
    rerun.on_line(r#"{"type":"suite","event":"ok","name":"a"}"#);
    assert_eq!(rerun.result, None);
    rerun.on_line(r#"{"type":"test","event":"ok","name":"a","exec_time":0.5}"#);
    assert_eq!(rerun.result, Some((seconds(0.5), Outcome::Passed)));
}

#[test]
fn a_retry_needs_a_build_and_a_binary_that_has_the_test() {
    assert_eq!(
        retry(false, "error".to_string(), Some((seconds(1.0), Outcome::Passed)), "t"),
        (Took::Nanos(0), failed(None, "error"))
    );
    assert_eq!(
        retry(true, String::new(), Some((seconds(1.0), Outcome::Passed)), "t"),
        (seconds(1.0), Outcome::Passed)
    );
    assert_eq!(
        retry(true, String::new(), None, "mod::t"),
        (
            Took::Nanos(0),
            failed(None, "test `mod::t` did not run in any binary after the rebuild")
        )
    );
}

#[test]
fn a_binary_that_aborts_has_not_passed() {
    let mut binary = TestRun::new();
    binary.on_line(r#"{"type":"test","event":"started","name":"a"}"#);
    assert!(binary.ok);
    binary.on_exit(false);
    assert!(!binary.ok);
    let mut run = Run::new(&vec![]);
    assert!(!run.finished(binary.ok));
    assert!(!run.all_ok);

    let mut binary = TestRun::new();
    binary.on_exit(true);
    assert!(binary.ok);
    binary.on_line(r#"{"type":"test","event":"failed","name":"a"}"#);
    binary.on_exit(true);
    assert!(!binary.ok);
}

#[test]
fn the_first_binary_that_has_the_test_decides() {
    let passed = || Some((seconds(1.0), Outcome::Passed));
    let answers = [None, passed(), Some((seconds(2.0), Outcome::Ignored))];
    let mut asked = 0;
    let mut found = None;
    for answer in answers {
        if !tries_next(true, &found) {
            break;
        }
        asked += 1;
        found = answer;
    }
    assert_eq!(asked, 2);
    assert_eq!(
        retry(true, String::new(), found, "t"),
        (seconds(1.0), Outcome::Passed)
    );
    assert!(!tries_next(false, &None));
    assert!(!tries_next(false, &passed()));
}

#[test]
fn harness_arguments_follow_the_fixed_flags() {
    let flags = ["--format", "json", "-Z", "unstable-options", "--report-time"];
    assert_eq!(test_args(&vec![]), flags);
    let own = vec!["--no-fail-fast".to_string(), "--".to_string(), "name".to_string()];
    assert_eq!(
        test_args(&own),
        [&flags[..], &["--no-fail-fast", "--", "name"]].concat()
    );
    assert_eq!(
        rerun_args("a::b"),
        [&flags[..], &["--exact", "a::b"]].concat()
    );
}

#[test]
fn a_rerun_that_takes_its_binary_down_has_failed() {
    let mut rerun = Rerun::new("a");
    rerun.on_line(r#"{"type":"test","event":"started","name":"aa"}"#);
    rerun.ended();
    assert_eq!(rerun.result, None);
    rerun.on_line(r#"{"type":"test","event":"started","name":"a"}"#);
    assert_eq!(rerun.result, None);
    rerun.ended();
    assert_eq!(
        rerun.result,
        Some((Took::Nanos(0), failed(None, "test `a` did not finish")))
    );

    let mut rerun = Rerun::new("a");
    rerun.on_line(r#"{"type":"test","event":"started","name":"a"}"#);
    rerun.on_line(r#"{"type":"test","event":"ok","name":"a"}"#);
    rerun.ended();
    assert_eq!(rerun.result, Some((seconds(0.0), Outcome::Passed)));
}
