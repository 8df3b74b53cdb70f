use cargo_pretty::commands::{
    build_args, flag_line, own_args, picked_reply, split_trailing_args, toxic_reply,
    unit_graph_args, Verb,
};

fn strings(items: &[&str]) -> Vec<String> {
    items.iter().map(|s| s.to_string()).collect()
}

#[test]
fn no_verb_means_build() {
    assert_eq!(Verb::parse(vec![]), Ok((Verb::Build, vec![])));
    assert_eq!(
        Verb::parse(strings(&["--release", "run"])),
        Ok((Verb::Build, strings(&["--release", "run"])))
    );
}

#[test]
fn build_hands_the_rest_to_cargo() {
    assert_eq!(
        Verb::parse(strings(&["build", "--release", "--", "x"])),
        Ok((Verb::Build, strings(&["--release", "--", "x"])))
    );
}

#[test]
fn run_hands_what_follows_the_dashes_to_the_binary() {
    assert_eq!(
        Verb::parse(strings(&["run", "--bin", "server", "--", "--port", "8080"])),
        Ok((
            Verb::Run {
                program_args: strings(&["--port", "8080"])
            },
            strings(&["--bin", "server"])
        ))
    );
    assert_eq!(
        Verb::parse(strings(&["run"])),
        Ok((
            Verb::Run {
                program_args: vec![]
            },
            vec![]
        ))
    );
}

#[test]
fn test_hands_what_follows_the_dashes_to_the_harness() {
    assert_eq!(
        Verb::parse(strings(&["test", "--lib", "--", "--no-fail-fast", "--", "name"])),
        Ok((
            Verb::Test {
                harness_args: strings(&["--no-fail-fast", "--", "name"])
            },
            strings(&["--lib"])
        ))
    );
}

#[test]
fn an_unknown_verb_is_an_error() {
    let reply = Verb::parse(strings(&["deploy", "now"])).unwrap_err();
    assert!(reply.starts_with("cargo pretty: "));
    assert!(reply.contains("`deploy`"));
}

#[test]
fn an_unknown_verb_gets_one_of_ten_replies() {
    let known: Vec<String> = (0..10).map(|i| picked_reply("fly", i)).collect();
    for _ in 0..100 {
        assert!(known.contains(&toxic_reply("fly")));
    }
    for (i, reply) in known.iter().enumerate() {
        assert!(!known[..i].contains(reply));
    }
}

#[test]
fn replies_read_as_written() {
    assert_eq!(
        picked_reply("v", 0),
        "cargo pretty: throw `v` at the Go compiler, not at me."
    );
    assert_eq!(
        picked_reply("v", 1),
        "cargo pretty: oh, so now you want `v`. where was `v` when I needed you?"
    );
    assert_eq!(
        picked_reply("v", 12),
        "cargo pretty: don't come crying to me when `v` doesn't work either."
    );
    assert_eq!(
        picked_reply("v", 19),
        "cargo pretty: so this is what we're doing now? `v`? really?"
    );
}

#[test]
fn splitting_drops_the_first_dashes_alone() {
    let mut args = strings(&["a", "--", "b", "--", "c"]);
    assert_eq!(split_trailing_args(&mut args), strings(&["b", "--", "c"]));
    assert_eq!(args, strings(&["a"]));
    let mut args = strings(&["a", "b"]);
    assert_eq!(split_trailing_args(&mut args), strings(&[]));
    assert_eq!(args, strings(&["a", "b"]));
    let mut args = strings(&["--"]);
    assert_eq!(split_trailing_args(&mut args), strings(&[]));
    assert_eq!(args, strings(&[]));
}

#[test]
fn a_request_loses_no_argument() {
    let given = strings(&["run", "--release", "--", "-v", "x"]);
    match Verb::parse(given.clone()) {
        Ok((Verb::Run { program_args }, rest)) => {
            let mut again = strings(&["run"]);
            again.extend(rest);
            again.push("--".to_string());
            again.extend(program_args);
            assert_eq!(again, given);
        }
        other => panic!("{other:?}"),
    }
}

#[test]
fn labels_and_compile_steps() {
    let run = Verb::Run {
        program_args: vec![],
    };
    let test = Verb::Test {
        harness_args: vec![],
    };
    assert_eq!(Verb::Build.label(), "build");
    assert_eq!(run.label(), "run");
    assert_eq!(test.label(), "test");
    assert_eq!(Verb::Build.compile_args(), ["build"]);
    assert_eq!(run.compile_args(), ["build"]);
    assert_eq!(test.compile_args(), ["test", "--no-run"]);
}

#[test]
fn the_subcommand_that_cargo_prepends_is_dropped_once() {
    assert_eq!(
        own_args("cargo-pretty", strings(&["pretty", "pretty"])),
        strings(&["pretty"])
    );
    assert_eq!(
        own_args("cargo-pretty", strings(&["build"])),
        strings(&["build"])
    );
    assert_eq!(own_args("pretty", strings(&["pretty"])), strings(&["pretty"]));
    assert_eq!(own_args("cargo-pretty", vec![]), strings(&[]));
}

#[test]
fn the_header_shows_the_command() {
    assert_eq!(flag_line(&Verb::Build, &vec![]), "cargo build");
    assert_eq!(
        flag_line(&Verb::Build, &strings(&["--release", "-q"])),
        "cargo build --release -q"
    );
    let run = Verb::Run {
        program_args: strings(&["--port", "80"]),
    };
    assert_eq!(
        flag_line(&run, &strings(&["--bin", "s"])),
        "cargo run --bin s -- --port 80"
    );
    assert_eq!(flag_line(&run, &vec![]), "cargo run  -- --port 80");
    let test = Verb::Test {
        harness_args: vec![],
    };
    assert_eq!(flag_line(&test, &strings(&["--lib"])), "cargo test --lib");
}

#[test]
fn cargo_gets_the_compile_step_then_the_users_arguments() {
    let test = Verb::Test {
        harness_args: strings(&["name"]),
    };
    assert_eq!(
        build_args(&Verb::Build, &strings(&["--release", "-q"])),
        ["build", "--message-format=json", "--color=always", "--release", "-q"]
    );
    assert_eq!(
        build_args(&test, &vec![]),
        ["test", "--no-run", "--message-format=json", "--color=always"]
    );
    assert_eq!(
        unit_graph_args(&test, &strings(&["--lib"])),
        [
            "test",
            "--no-run",
            "--unit-graph",
            "-Z",
            "unstable-options",
            "--message-format=json",
            "--lib"
        ]
    );
}

#[test]
fn what_is_typed_after_test_reaches_its_place() {
    let (verb, rest) = Verb::parse(strings(&["test", "--lib", "--", "a", "b"])).unwrap();
    assert!(build_args(&verb, &rest).ends_with(&strings(&["--lib"])));
    match verb {
        Verb::Test { harness_args } => {
            assert!(cargo_pretty::test::test_args(&harness_args).ends_with(&strings(&["a", "b"])));
        }
        other => panic!("{other:?}"),
    }
}
