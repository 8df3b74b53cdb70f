use cargo_pretty::commands::Verb;
use cargo_pretty::ending::{ending, shown_name, Ending};
use cargo_pretty::events::Event;
use cargo_pretty::metadata::{Metadata, Package, RootPackage, Target, TargetKind};
use cargo_pretty::setup::{after_compile, prepare, settle_args, AfterCompile};
use cargo_pretty::state::State;

fn run_verb() -> Verb {
    Verb::Run {
        program_args: vec!["--port".to_string()],
    }
}

fn test_verb() -> Verb {
    Verb::Test {
        harness_args: vec![],
    }
}

fn target(name: &str, kind: TargetKind) -> Target {
    Target {
        name: name.to_string(),
        kind: vec![kind],
    }
}

fn metadata(targets: Option<Vec<Target>>) -> Metadata {
    let package = |id: &str, name: &str, version: &str| Package {
        id: id.to_string(),
        name: name.to_string(),
        version: version.to_string(),
        dependencies: vec![],
    };
    Metadata {
        packages: vec![package("i1", "app", "0.1.0"), package("i2", "dep", "2.0.0")],
        workspace_members: vec![],
        resolve: None,
        root_package: targets.map(|targets| RootPackage {
            name: "app".to_string(),
            targets,
            default_run: None,
        }),
        target_directory: "/w/target".to_string(),
    }
}

fn pair(a: &str, b: &str) -> (String, String) {
    (a.to_string(), b.to_string())
}

fn ready(project: &str) -> Event {
    Event::Ready {
        project: project.to_string(),
        target_dir: "/w/target".to_string(),
        total: 2,
        versions: vec![pair("app", "0.1.0"), pair("dep", "2.0.0")],
        names: vec![pair("i1", "app"), pair("i2", "dep")],
    }
}

#[test]
fn metadata_settles_what_is_being_built() {
    assert_eq!(prepare(&Verb::Build, &vec![], &metadata(Some(vec![]))), Ok(ready("app")));
    assert_eq!(prepare(&test_verb(), &vec![], &metadata(None)), Ok(ready("project")));
}

#[test]
fn run_needs_a_binary() {
    let m = metadata(Some(vec![target("lib", TargetKind::Other)]));
    assert_eq!(
        prepare(&run_verb(), &vec![], &m),
        Err("error: a bin target must be available for `cargo run`\n".to_string())
    );
    assert_eq!(
        prepare(&run_verb(), &vec![], &metadata(None)),
        Err("error: a bin target must be available for `cargo run`\n".to_string())
    );
    let m = metadata(Some(vec![
        target("script", TargetKind::CustomBuild),
        target("app", TargetKind::Bin),
    ]));
    assert_eq!(prepare(&run_verb(), &vec![], &m), Ok(ready("app")));
}

#[test]
fn run_refuses_to_choose_between_binaries() {
    let m = metadata(Some(vec![
        target("one", TargetKind::Bin),
        target("lib", TargetKind::Other),
        target("two", TargetKind::Bin),
        target("three", TargetKind::Bin),
    ]));
    assert_eq!(
        prepare(&run_verb(), &vec!["--release".to_string()], &m),
        Err(
            "error: `cargo run` requires --bin or --example because multiple binaries are available: one, two, three\n"
                .to_string()
        )
    );
    for flag in ["--bin", "--example"] {
        assert_eq!(
            prepare(&run_verb(), &vec![flag.to_string(), "two".to_string()], &m),
            Ok(ready("app"))
        );
    }
    for flag in ["--bin=two", "--example=demo", "--bin="] {
        assert_eq!(
            prepare(&run_verb(), &vec!["-q".to_string(), flag.to_string()], &m),
            Ok(ready("app"))
        );
    }
    for flag in ["--bins", "--examples=x", "--binary", "bin=two"] {
        assert!(prepare(&run_verb(), &vec![flag.to_string()], &m).is_err());
    }
    assert_eq!(prepare(&Verb::Build, &vec![], &m), Ok(ready("app")));
}

#[test]
fn a_default_settles_which_binary_runs() {
    let with_default = |targets: Vec<Target>| {
        let mut m = metadata(Some(targets));
        if let Some(root) = &mut m.root_package {
            root.default_run = Some("two".to_string());
        }
        m
    };
    let strings = |items: &[&str]| -> Vec<String> { items.iter().map(|s| s.to_string()).collect() };
    let m = with_default(vec![
        target("one", TargetKind::Bin),
        target("two", TargetKind::Bin),
    ]);
    let args = strings(&["--release"]);
    assert_eq!(prepare(&run_verb(), &args, &m), Ok(ready("app")));
    assert_eq!(
        settle_args(&run_verb(), &args, &m),
        strings(&["--release", "--bin", "two"])
    );
    let named = strings(&["--bin", "one"]);
    assert_eq!(settle_args(&run_verb(), &named, &m), named);
    assert_eq!(settle_args(&Verb::Build, &args, &m), args);
    assert_eq!(settle_args(&test_verb(), &args, &m), args);
    let one = with_default(vec![target("two", TargetKind::Bin)]);
    assert_eq!(settle_args(&run_verb(), &args, &one), args);
    assert!(prepare(&run_verb(), &args, &with_default(vec![])).is_err());
    assert_eq!(settle_args(&run_verb(), &args, &metadata(None)), args);
}

#[test]
fn the_verb_decides_what_follows_the_compile_step() {
    assert_eq!(after_compile(&Verb::Build, true), AfterCompile::Done { ok: true });
    assert_eq!(after_compile(&Verb::Build, false), AfterCompile::Done { ok: false });
    assert_eq!(after_compile(&run_verb(), true), AfterCompile::Execute);
    assert_eq!(after_compile(&run_verb(), false), AfterCompile::Done { ok: false });
    assert_eq!(after_compile(&test_verb(), true), AfterCompile::RunTests);
    assert_eq!(after_compile(&test_verb(), false), AfterCompile::Done { ok: false });
}

#[test]
fn a_failed_build_ends_with_its_errors() {
    for verb in [Verb::Build, run_verb(), test_verb()] {
        let mut s = State::new();
        s.apply(Event::Error("one".to_string()), 0, 0);
        s.apply(Event::Executables(vec!["/t/app".to_string()]), 0, 0);
        s.apply(Event::Error("two".to_string()), 0, 0);
        s.apply(Event::Done(false), 0, 0);
        assert_eq!(
            ending(s, verb),
            Ending::Failed {
                errors: vec!["one".to_string(), "two".to_string()]
            }
        );
    }
}

#[test]
fn run_executes_the_first_binary() {
    let mut s = State::new();
    s.apply(
        Event::Executables(vec!["/t/app".to_string(), "/t/other".to_string()]),
        0,
        0,
    );
    s.apply(Event::Done(true), 0, 0);
    assert_eq!(
        ending(s, run_verb()),
        Ending::Execute {
            path: "/t/app".to_string(),
            program_args: vec!["--port".to_string()],
        }
    );
}

#[test]
fn run_without_a_binary_says_so() {
    let mut s = State::new();
    s.apply(Event::Executables(vec![]), 0, 0);
    s.apply(Event::Done(true), 0, 0);
    assert_eq!(
        ending(s, run_verb()),
        Ending::NoTarget {
            message: "cargo pretty: build succeeded but no runnable target was found".to_string()
        }
    );
    assert_eq!(ending(State::new(), Verb::Build), Ending::Over);
    assert_eq!(ending(State::new(), test_verb()), Ending::Over);
}

#[test]
fn an_executable_is_shown_without_its_extension() {
    assert_eq!(shown_name("server.exe"), "server");
    assert_eq!(shown_name("server"), "server");
    assert_eq!(shown_name("a.b.c"), "a");
    assert_eq!(shown_name(".hidden"), "");
    assert_eq!(shown_name(""), "");
}
