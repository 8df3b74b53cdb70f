use cargo_pretty::events::{Event, Outcome, Took, Warning};
use cargo_pretty::state::State;

fn failure(stdout: &str) -> Outcome {
    Outcome::Failed {
        location: Some("f.rs:1".to_string()),
        stdout: stdout.to_string(),
    }
}

fn finished(name: &str, outcome: Outcome) -> Event {
    Event::TestFinished {
        name: name.to_string(),
        took: Took::SecondsBits(7),
        outcome,
    }
}

fn retried(name: &str, outcome: Outcome) -> Event {
    Event::RetryFinished {
        name: name.to_string(),
        took: Took::SecondsBits(9),
        outcome,
    }
}

fn artifact(id: &str, name: &str, fresh: bool, real: bool) -> Event {
    Event::Artifact {
        id: id.to_string(),
        name: name.to_string(),
        fresh,
        real,
    }
}

fn running(s: &State) -> Vec<(&str, u64, bool)> {
    s.progress
        .building
        .iter()
        .map(|r| (r.name.as_str(), r.started, r.script))
        .collect()
}

fn done(s: &State) -> Vec<(&str, Took)> {
    s.progress
        .done
        .iter()
        .map(|d| (d.name.as_str(), d.took))
        .collect()
}

fn failed(s: &State) -> Vec<&str> {
    s.failed.items.iter().map(|f| f.name.as_str()).collect()
}

#[test]
fn nothing_is_known_at_first() {
    let s = State::new();
    assert_eq!(s.project.name, "");
    assert_eq!(s.project.target_dir, None);
    assert_eq!((s.progress.seen, s.progress.total), (0, 0));
    assert!(running(&s).is_empty() && done(&s).is_empty() && failed(&s).is_empty());
    assert_eq!((s.build_ok, s.final_elapsed), (None, None));
    assert!(s.errors.is_empty() && s.warnings.items.is_empty());
}

#[test]
fn ready_and_total_set_the_scene() {
    let mut s = State::new();
    s.apply(
        Event::Ready {
            project: "app".to_string(),
            target_dir: "/t".to_string(),
            total: 12,
            versions: vec![("app".to_string(), "1.0.0".to_string())],
            names: vec![("id".to_string(), "app".to_string())],
        },
        5,
        1000,
    );
    assert_eq!(s.project.name, "app");
    assert_eq!(s.project.target_dir, Some("/t".to_string()));
    assert_eq!(s.project.before_size, 1000);
    assert_eq!(s.project.versions.get("app"), Some(&"1.0.0".to_string()));
    assert_eq!(s.project.versions.get("dep"), None);
    assert_eq!(s.project.names, vec![("id".to_string(), "app".to_string())]);
    assert_eq!(s.progress.total, 12);
    s.apply(Event::Total(40), 6, 0);
    assert_eq!(s.progress.total, 40);
}

#[test]
fn a_crate_runs_from_its_start_to_its_artifact() {
    let mut s = State::new();
    s.apply(Event::Started("a".to_string()), 100, 0);
    s.apply(Event::Started("b".to_string()), 150, 0);
    s.apply(Event::Started("a".to_string()), 200, 0);
    assert_eq!(running(&s), vec![("a", 100, false), ("b", 150, false)]);
    s.apply(artifact("i", "a", false, true), 350, 0);
    assert_eq!(running(&s), vec![("b", 150, false)]);
    assert_eq!(done(&s), vec![("a", Took::Nanos(250))]);
    s.apply(artifact("j", "unseen", false, true), 400, 0);
    assert_eq!(done(&s)[1], ("unseen", Took::Nanos(0)));
    s.apply(artifact("k", "b", true, true), 500, 0);
    assert_eq!(running(&s), vec![("b", 150, false)]);
    assert_eq!(s.progress.seen, 3);
}

#[test]
fn a_build_script_is_seen_running() {
    let mut s = State::new();
    s.apply(Event::Started("a".to_string()), 1, 0);
    s.apply(Event::ScriptRunning("a".to_string()), 2, 0);
    s.apply(Event::ScriptRunning("x".to_string()), 2, 0);
    assert_eq!(running(&s), vec![("a", 1, true)]);
    s.apply(artifact("i", "a", false, false), 3, 0);
    assert_eq!(running(&s), vec![("a", 1, true)]);
    s.apply(Event::ScriptExecuted("a".to_string()), 4, 0);
    assert_eq!(running(&s), vec![("a", 1, false)]);
    assert_eq!(s.progress.seen, 2);
    assert!(done(&s).is_empty());
}

#[test]
fn the_first_suite_starts_the_progress_over() {
    let mut s = State::new();
    s.apply(Event::Total(9), 0, 0);
    s.apply(Event::Started("a".to_string()), 0, 0);
    s.apply(artifact("i", "b", false, true), 0, 0);
    s.apply(Event::SuiteStarted { total: 3 }, 0, 0);
    assert!(s.progress.testing);
    assert_eq!((s.progress.seen, s.progress.total), (0, 3));
    assert!(running(&s).is_empty() && done(&s).is_empty());
    s.apply(Event::TestStarted("t".to_string()), 8, 0);
    s.apply(Event::SuiteStarted { total: 4 }, 0, 0);
    assert_eq!((s.progress.seen, s.progress.total), (0, 7));
    assert_eq!(running(&s), vec![("t", 8, false)]);
}

#[test]
fn finished_tests_pass_fail_or_are_ignored() {
    let mut s = State::new();
    s.apply(Event::SuiteStarted { total: 3 }, 0, 0);
    for name in ["p", "i", "f"] {
        s.apply(Event::TestStarted(name.to_string()), 0, 0);
    }
    s.apply(finished("p", Outcome::Passed), 1, 0);
    s.apply(finished("i", Outcome::Ignored), 1, 0);
    s.apply(finished("f", failure("out")), 1, 0);
    assert!(running(&s).is_empty());
    assert_eq!(done(&s), vec![("p", Took::SecondsBits(7))]);
    assert_eq!(failed(&s), vec!["f"]);
    assert_eq!(s.failed.items[0].location, Some("f.rs:1".to_string()));
    assert_eq!(s.failed.items[0].stdout, "out");
    assert_eq!(s.failed.expanded, vec![false]);
    assert_eq!(s.progress.seen, 3);
}

fn three_failures() -> State {
    let mut s = State::new();
    s.apply(Event::SuiteStarted { total: 3 }, 0, 0);
    for name in ["a", "b", "c"] {
        s.apply(finished(name, failure(&"x\n".repeat(30))), 0, 0);
    }
    s.apply(Event::Done(false), 9, 0);
    s
}

#[test]
fn a_passing_rerun_clears_the_failure() {
    let mut s = three_failures();
    s.failed.selected = 1;
    s.failed.expanded = vec![true, false, true];
    s.apply(retried("b", Outcome::Passed), 20, 0);
    assert_eq!(failed(&s), vec!["a", "c"]);
    assert_eq!(s.failed.expanded, vec![true, true]);
    assert_eq!((s.failed.selected, s.failed.stdout_scroll), (1, 10));
    assert_eq!(done(&s), vec![("b", Took::SecondsBits(9))]);
    s.apply(retried("c", Outcome::Ignored), 20, 0);
    assert_eq!(failed(&s), vec!["a"]);
    assert_eq!(s.failed.selected, 0);
    s.apply(retried("a", Outcome::Passed), 20, 0);
    assert_eq!((s.failed.selected, s.failed.stdout_scroll), (0, 0));
    assert!(failed(&s).is_empty());
    assert_eq!(done(&s).len(), 2);
    assert_eq!((s.build_ok, s.final_elapsed), (Some(false), Some(9)));
}

#[test]
fn a_rerun_before_the_selected_test_keeps_it_selected() {
    let mut s = three_failures();
    s.failed.selected = 2;
    s.failed.stdout_scroll = 3;
    s.apply(retried("a", Outcome::Passed), 20, 0);
    assert_eq!(failed(&s), vec!["b", "c"]);
    assert_eq!((s.failed.selected, s.failed.stdout_scroll), (1, 3));
}

#[test]
fn a_failing_rerun_replaces_what_was_said() {
    let mut s = three_failures();
    s.failed.selected = 1;
    s.apply(retried("b", failure(&"y\n".repeat(25))), 20, 0);
    assert_eq!(failed(&s), vec!["a", "b", "c"]);
    assert_eq!(s.failed.items[1].took, Took::SecondsBits(9));
    assert_eq!(s.failed.stdout_scroll, 5);
    s.apply(retried("unknown", failure("z")), 20, 0);
    s.apply(retried("unknown", Outcome::Passed), 20, 0);
    assert_eq!(failed(&s), vec!["a", "b", "c"]);
    assert!(done(&s).is_empty());
}

#[test]
fn done_stops_the_clock_and_measures_the_disk() {
    let mut s = State::new();
    s.apply(Event::Done(true), 70, 900);
    assert_eq!(s.project.grew_by, 0);
    s.apply(
        Event::Ready {
            project: String::new(),
            target_dir: "/t".to_string(),
            total: 0,
            versions: vec![],
            names: vec![],
        },
        0,
        100,
    );
    s.apply(Event::Done(true), 80, 350);
    assert_eq!((s.build_ok, s.final_elapsed), (Some(true), Some(80)));
    assert_eq!(s.project.grew_by, 250);
    s.apply(Event::Done(false), 90, 50);
    assert_eq!(s.project.grew_by, 0);
    s.apply(Event::Total(1), 99, 0);
    assert_eq!(s.final_elapsed, Some(90));
}

#[test]
fn texts_and_warnings_are_collected() {
    let mut s = State::new();
    s.apply(Event::Error("e1".to_string()), 0, 0);
    s.apply(Event::Error("e2".to_string()), 0, 0);
    assert_eq!(s.errors, vec!["e1".to_string(), "e2".to_string()]);
    s.apply(
        Event::Warning(Warning {
            message: "w".to_string(),
            location: None,
            help: None,
            rendered: String::new(),
        }),
        0,
        0,
    );
    assert_eq!(s.warnings.items[0].message, "w");
    s.apply(Event::Executables(vec!["x".to_string(), "y".to_string()]), 0, 0);
    assert_eq!(s.run_target, Some("x".to_string()));
}

#[test]
fn full_counters_have_no_room() {
    let mut s = State::new();
    assert!(s.has_room_for(&Event::SuiteStarted { total: usize::MAX }));
    s.apply(Event::SuiteStarted { total: usize::MAX }, 0, 0);
    assert!(!s.has_room_for(&Event::SuiteStarted { total: 1 }));
    assert!(s.has_room_for(&Event::SuiteStarted { total: 0 }));
    assert!(s.has_room_for(&Event::ScriptExecuted(String::new())));
    s.progress.seen = usize::MAX;
    assert!(!s.has_room_for(&Event::ScriptExecuted(String::new())));
    assert!(!s.has_room_for(&artifact("", "", true, true)));
    assert!(!s.has_room_for(&finished("", Outcome::Passed)));
    assert!(s.has_room_for(&Event::Done(true)));
}
