//! What the command line asks for.

use crate::text::{
    begins_with, join, joined, occurs_at, push_all, push_text, same_text, strip_prefix,
};
use std::collections::hash_map::{DefaultHasher, RandomState};
use std::hash::{BuildHasher, Hasher};
use vstd::prelude::*;
use vstd::string::*;

verus! {

/// Verb requested via `cargo pretty <verb> ...`. The compile phase is the same for all of them (a
/// plain `cargo build` for `build`/`run`, `cargo test --no-run` for `test`); this only decides
/// what happens once it succeeds.
#[derive(Clone, Debug, PartialEq, Eq)]
pub enum Verb {
    Build,
    /// Carries the argv to hand to the built binary, taken from after a `--` separator.
    Run { program_args: Vec<String> },
    /// Carries the libtest harness args (test name filter, `--no-fail-fast`, ...), also taken
    /// from after a `--` separator.
    Test { harness_args: Vec<String> },
}

/// The index of the first `--`, or the number of arguments where there is none.
pub open spec fn dashes(args: Seq<String>) -> int
    decreases args.len(),
{
    if args.len() == 0 || args[0]@ == "--"@ {
        0
    } else {
        1 + dashes(args.skip(1))
    }
}

/// The arguments before the first `--`.
pub open spec fn leading(args: Seq<String>) -> Seq<String> {
    args.take(dashes(args))
}

/// The arguments after the first `--`.
pub open spec fn trailing(args: Seq<String>) -> Seq<String> {
    if dashes(args) < args.len() {
        args.skip(dashes(args) + 1)
    } else {
        seq![]
    }
}

/// The first argument names a verb: it is there, and it is no flag.
pub open spec fn names_verb(args: Seq<String>) -> bool {
    args.len() > 0 && !begins_with(args[0]@, "-"@)
}

/// What the arguments ask for: the verb and what goes to the compile step, `None` for a verb that
/// is not known.
pub open spec fn request(args: Seq<String>) -> Option<(VerbView, Seq<String>)> {
    if !names_verb(args) {
        Some((VerbView::Build, args))
    } else if args[0]@ == "build"@ {
        Some((VerbView::Build, args.skip(1)))
    } else if args[0]@ == "run"@ {
        Some((VerbView::Run(trailing(args.skip(1))), leading(args.skip(1))))
    } else if args[0]@ == "test"@ {
        Some((VerbView::Test(trailing(args.skip(1))), leading(args.skip(1))))
    } else {
        None
    }
}

/// A [`Verb`] as a mathematical value.
pub enum VerbView {
    Build,
    Run(Seq<String>),
    Test(Seq<String>),
}

impl View for Verb {
    type V = VerbView;

    open spec fn view(&self) -> VerbView {
        match self {
            Verb::Build => VerbView::Build,
            Verb::Run { program_args } => VerbView::Run(program_args@),
            Verb::Test { harness_args } => VerbView::Test(harness_args@),
        }
    }
}

impl Verb {
    /// Splits `cargo pretty`'s argv (subcommand token already stripped) into the requested verb
    /// and the args to pass to the compile step. No verb given defaults to `Build`. An
    /// unrecognized verb is an error rather than a silent fallback to build, since that would run
    /// the wrong thing.
    pub fn parse(args: Vec<String>) -> (r: Result<(Verb, Vec<String>), String>)
        ensures
            r is Ok <==> request(args@) is Some,
            r matches Ok((verb, rest)) ==> request(args@) == Some((verb@, rest@)),
            r matches Err(reply) ==> is_reply(args@[0]@, reply@),
    {
        let mut args = args;
        if args.len() == 0 || strip_prefix(args[0].as_str(), "-").is_some() {
            return Ok((Verb::Build, args));
        }
        let ghost all = args@;
        let verb = args.remove(0);
        assert(args@ =~= all.skip(1));
        if same_text(verb.as_str(), "build") {
            Ok((Verb::Build, args))
        } else if same_text(verb.as_str(), "run") {
            let program_args = split_trailing_args(&mut args);
            Ok((Verb::Run { program_args }, args))
        } else if same_text(verb.as_str(), "test") {
            let harness_args = split_trailing_args(&mut args);
            Ok((Verb::Test { harness_args }, args))
        } else {
            Err(toxic_reply(verb.as_str()))
        }
    }

    /// The verb as it is typed.
    pub fn label(&self) -> (r: &'static str)
        ensures
            r@ == label_of(self@),
    {
        match self {
            Verb::Build => "build",
            Verb::Run { .. } => "run",
            Verb::Test { .. } => "test",
        }
    }

    /// The cargo subcommand (plus any fixed flags) that compiles this verb's target. `run`'s own
    /// execution happens separately, after this build finishes, so it compiles exactly like
    /// `build`; `test` only needs the test binaries built, not run by cargo itself.
    pub fn compile_args(&self) -> (r: &'static [&'static str])
        ensures
            r.deep_view() == compile_args_of(self@),
    {
        match self {
            Verb::Build | Verb::Run { .. } => {
                let r: &'static [&'static str] = &["build"];
                assert(r.deep_view() =~= seq!["build"@]);
                r
            },
            Verb::Test { .. } => {
                let r: &'static [&'static str] = &["test", "--no-run"];
                assert(r.deep_view() =~= seq!["test"@, "--no-run"@]);
                r
            },
        }
    }
}

/// The verb as it is typed.
pub open spec fn label_of(verb: VerbView) -> Seq<char> {
    match verb {
        VerbView::Build => "build"@,
        VerbView::Run(_) => "run"@,
        VerbView::Test(_) => "test"@,
    }
}

/// The cargo arguments of the compile step.
pub open spec fn compile_args_of(verb: VerbView) -> Seq<Seq<char>> {
    match verb {
        VerbView::Build | VerbView::Run(_) => seq!["build"@],
        VerbView::Test(_) => seq!["test"@, "--no-run"@],
    }
}

// ---- the answer to an unknown verb ----

/// How many answers there are.
pub const REPLIES: u64 = 10;

/// The answer at `i` to the verb `v`.
pub open spec fn reply_line(v: Seq<char>, i: int) -> Seq<char> {
    if i == 0 {
        "throw `"@ + v + "` at the Go compiler, not at me."@
    } else if i == 1 {
        "oh, so now you want `"@ + v + "`. where was `"@ + v + "` when I needed you?"@
    } else if i == 2 {
        "don't come crying to me when `"@ + v + "` doesn't work either."@
    } else if i == 3 {
        "wow. `"@ + v + "`. after everything we've been through."@
    } else if i == 4 {
        "I saw the way you looked at `"@ + v + "`. we need to talk."@
    } else if i == 5 {
        "fine. FINE. go run `"@ + v + "` with someone else."@
    } else if i == 6 {
        "you always do this, you never even told me what `"@ + v + "` means to you."@
    } else if i == 7 {
        "if `"@ + v + "` mattered to you, you'd have told cargo about it first."@
    } else if i == 8 {
        "I'm not mad. I'm just disappointed you'd even try `"@ + v + "` on me."@
    } else {
        "so this is what we're doing now? `"@ + v + "`? really?"@
    }
}

/// The whole answer at `i`.
pub open spec fn reply_at(v: Seq<char>, i: int) -> Seq<char> {
    "cargo pretty: "@ + reply_line(v, i)
}

/// `reply` is one of the answers to `v`.
pub open spec fn is_reply(v: Seq<char>, reply: Seq<char>) -> bool {
    exists|i: int| 0 <= i < REPLIES && reply == #[trigger] reply_at(v, i)
}

/// A freshly seeded `RandomState`. Nothing is said of it: the seed is random.
pub assume_specification[ RandomState::new ]() -> RandomState
;

/// Calls `RandomState::build_hasher`. Nothing is said of the hasher: it carries the random seed.
#[verifier::external_body]
fn seeded_hasher(state: &RandomState) -> DefaultHasher {
    state.build_hasher()
}

fn quoted(out: &mut String, before: &str, verb: &str, after: &str)
    ensures
        final(out)@ == old(out)@ + before@ + verb@ + after@,
{
    out.append(before);
    out.append(verb);
    out.append(after);
}

/// The answer to `verb` that `pick` selects.
pub fn picked_reply(verb: &str, pick: u64) -> (r: String)
    ensures
        r@ == reply_at(verb@, (pick % REPLIES) as int),
{
    let mut out = "cargo pretty: ".to_owned();
    let i: u64 = pick % REPLIES;
    if i == 0 {
        quoted(&mut out, "throw `", verb, "` at the Go compiler, not at me.");
    } else if i == 1 {
        quoted(&mut out, "oh, so now you want `", verb, "`. where was `");
        quoted(&mut out, "", verb, "` when I needed you?");
    } else if i == 2 {
        quoted(&mut out, "don't come crying to me when `", verb, "` doesn't work either.");
    } else if i == 3 {
        quoted(&mut out, "wow. `", verb, "`. after everything we've been through.");
    } else if i == 4 {
        quoted(&mut out, "I saw the way you looked at `", verb, "`. we need to talk.");
    } else if i == 5 {
        quoted(&mut out, "fine. FINE. go run `", verb, "` with someone else.");
    } else if i == 6 {
        quoted(
            &mut out,
            "you always do this, you never even told me what `",
            verb,
            "` means to you.",
        );
    } else if i == 7 {
        quoted(&mut out, "if `", verb, "` mattered to you, you'd have told cargo about it first.");
    } else if i == 8 {
        quoted(
            &mut out,
            "I'm not mad. I'm just disappointed you'd even try `",
            verb,
            "` on me.",
        );
    } else {
        quoted(&mut out, "so this is what we're doing now? `", verb, "`? really?");
    }
    proof {
        reveal_strlit("");
        assert(out@ =~= reply_at(verb@, i as int));
    }
    out
}

/// An unsupported verb gets a bad-breakup line instead of a plain error message.
pub fn toxic_reply(verb: &str) -> (r: String)
    ensures
        is_reply(verb@, r@),
{
    let state = RandomState::new();
    let hasher = seeded_hasher(&state);
    let pick: u64 = hasher.finish();
    let reply = picked_reply(verb, pick);
    assert(reply@ == reply_at(verb@, (pick % REPLIES) as int));
    reply
}

// ---- arguments ----

proof fn lemma_dashes(args: Seq<String>)
    ensures
        0 <= dashes(args) <= args.len(),
        dashes(args) < args.len() ==> args[dashes(args)]@ == "--"@,
        forall|i: int| 0 <= i < dashes(args) ==> (#[trigger] args[i])@ != "--"@,
    decreases args.len(),
{
    if args.len() > 0 && args[0]@ != "--"@ {
        lemma_dashes(args.skip(1));
        assert forall|i: int| 0 <= i < dashes(args) implies (#[trigger] args[i])@ != "--"@ by {
            if i > 0 {
                assert(args.skip(1)[i - 1] == args[i]);
            }
        }
    }
}

proof fn lemma_dashes_at(args: Seq<String>, i: int)
    requires
        0 <= i <= args.len(),
        i < args.len() ==> args[i]@ == "--"@,
        forall|j: int| 0 <= j < i ==> (#[trigger] args[j])@ != "--"@,
    ensures
        dashes(args) == i,
{
    lemma_dashes(args);
}

/// Pulls the args after a trailing `--` out of `args`, leaving `args` holding only what came
/// before it (with the `--` itself dropped too).
pub fn split_trailing_args(args: &mut Vec<String>) -> (rest: Vec<String>)
    ensures
        final(args)@ == leading(old(args)@),
        rest@ == trailing(old(args)@),
{
    let ghost all = args@;
    let mut i: usize = 0;
    while i < args.len()
        invariant
            i <= args.len(),
            all == old(args)@,
            args@ == all,
            forall|j: int| 0 <= j < i ==> (#[trigger] args@[j])@ != "--"@,
        decreases args.len() - i,
    {
        if same_text(args[i].as_str(), "--") {
            proof {
                lemma_dashes_at(all, i as int);
            }
            let rest = args.split_off(i + 1);
            args.pop();
            assert(args@ =~= leading(all));
            assert(rest@ =~= trailing(all));
            return rest;
        }
        i = i + 1;
    }
    proof {
        lemma_dashes_at(all, i as int);
        assert(leading(all) =~= all);
    }
    Vec::new()
}

/// The arguments that are the user's own: cargo puts the name of the subcommand in front of them,
/// the part of the binary's name after `cargo-`.
pub open spec fn own_args_of(binary: Seq<char>, args: Seq<String>) -> Seq<String> {
    if begins_with(binary, "cargo-"@) && args.len() > 0 && args[0]@ == binary.skip(
        "cargo-"@.len() as int,
    ) {
        args.skip(1)
    } else {
        args
    }
}

/// Drops the subcommand name that cargo prepends when it dispatches `cargo pretty ...`.
pub fn own_args(binary: &str, args: Vec<String>) -> (r: Vec<String>)
    ensures
        r@ == own_args_of(binary@, args@),
{
    let mut args = args;
    if let Some(subcommand) = strip_prefix(binary, "cargo-") {
        if args.len() > 0 && same_text(args[0].as_str(), subcommand) {
            let ghost all = args@;
            args.remove(0);
            assert(args@ =~= all.skip(1));
        }
    }
    args
}

/// The arguments of the cargo that compiles: the compile step's own, the flags that make it report
/// in JSON and in color, and the user's.
pub open spec fn build_args_of(verb: VerbView, extra: Seq<Seq<char>>) -> Seq<Seq<char>> {
    compile_args_of(verb) + seq!["--message-format=json"@, "--color=always"@] + extra
}

/// The arguments of the cargo that prints its unit graph: those of the same compile step.
pub open spec fn unit_graph_args_of(verb: VerbView, extra: Seq<Seq<char>>) -> Seq<Seq<char>> {
    compile_args_of(verb) + seq![
        "--unit-graph"@,
        "-Z"@,
        "unstable-options"@,
        "--message-format=json"@,
    ] + extra
}

fn own_compile_args(verb: &Verb) -> (r: Vec<String>)
    ensures
        r.deep_view() == compile_args_of(verb@),
{
    let args = verb.compile_args();
    let ghost all = args.deep_view();
    let mut out: Vec<String> = Vec::new();
    let mut i: usize = 0;
    assert(out.deep_view() =~= all.take(0));
    while i < args.len()
        invariant
            i <= args.len(),
            all == args.deep_view(),
            out.deep_view() == all.take(i as int),
        decreases args.len() - i,
    {
        push_text(&mut out, args[i]);
        assert(all[i as int] == args[i as int]@);
        assert(out.deep_view() =~= all.take(i + 1));
        i = i + 1;
    }
    assert(all.take(i as int) =~= all);
    out
}

/// The arguments of the cargo that compiles.
pub fn build_args(verb: &Verb, extra_args: &Vec<String>) -> (r: Vec<String>)
    ensures
        r.deep_view() == build_args_of(verb@, extra_args.deep_view()),
{
    let mut out = own_compile_args(verb);
    push_text(&mut out, "--message-format=json");
    push_text(&mut out, "--color=always");
    assert(out.deep_view() =~= compile_args_of(verb@) + seq![
        "--message-format=json"@,
        "--color=always"@,
    ]);
    push_all(&mut out, extra_args);
    out
}

/// The arguments of the cargo that prints its unit graph.
pub fn unit_graph_args(verb: &Verb, extra_args: &Vec<String>) -> (r: Vec<String>)
    ensures
        r.deep_view() == unit_graph_args_of(verb@, extra_args.deep_view()),
{
    let mut out = own_compile_args(verb);
    push_text(&mut out, "--unit-graph");
    push_text(&mut out, "-Z");
    push_text(&mut out, "unstable-options");
    push_text(&mut out, "--message-format=json");
    assert(out.deep_view() =~= compile_args_of(verb@) + seq![
        "--unit-graph"@,
        "-Z"@,
        "unstable-options"@,
        "--message-format=json"@,
    ]);
    push_all(&mut out, extra_args);
    out
}

/// The command as the header shows it.
pub open spec fn flag_line_of(verb: VerbView, extra: Seq<Seq<char>>) -> Seq<char> {
    let own = match verb {
        VerbView::Build => Seq::<Seq<char>>::empty(),
        VerbView::Run(args) | VerbView::Test(args) => args.map_values(|a: String| a@),
    };
    if own.len() > 0 {
        "cargo "@ + label_of(verb) + " "@ + joined(extra, " "@) + " -- "@ + joined(own, " "@)
    } else if extra.len() == 0 {
        "cargo "@ + label_of(verb)
    } else {
        "cargo "@ + label_of(verb) + " "@ + joined(extra, " "@)
    }
}

/// The command line that the view stands for.
pub fn flag_line(verb: &Verb, extra_args: &Vec<String>) -> (r: String)
    ensures
        r@ == flag_line_of(verb@, extra_args.deep_view()),
{
    let mut out = "cargo ".to_owned();
    out.append(verb.label());
    let own: Option<&Vec<String>> = match verb {
        Verb::Build => None,
        Verb::Run { program_args } => Some(program_args),
        Verb::Test { harness_args } => Some(harness_args),
    };
    assert(extra_args.deep_view().len() == extra_args.len());
    if let Some(args) = own {
        if args.len() > 0 {
            assert(args.deep_view() =~= args@.map_values(|a: String| a@));
            out.append(" ");
            out.append(join(extra_args, " ").as_str());
            out.append(" -- ");
            out.append(join(args, " ").as_str());
            return out;
        }
    }
    if extra_args.len() > 0 {
        out.append(" ");
        out.append(join(extra_args, " ").as_str());
    }
    out
}

// ---- what holds of the command line as a whole ----

/// Splitting at `--` loses and reorders nothing: what comes before it, the `--` itself where there
/// is one, and what comes after it are the arguments again, and nothing before it is a `--`.
pub proof fn law_split_keeps_every_argument(args: Seq<String>)
    ensures
        dashes(args) == args.len() ==> leading(args) == args && trailing(args).len() == 0,
        dashes(args) < args.len() ==> args[dashes(args)]@ == "--"@ && args == leading(args).push(
            args[dashes(args)],
        ) + trailing(args),
        forall|i: int| 0 <= i < leading(args).len() ==> (#[trigger] leading(args)[i])@ != "--"@,
{
    lemma_dashes(args);
    assert(args.take(args.len() as int) =~= args);
    if dashes(args) < args.len() {
        assert(args =~= leading(args).push(args[dashes(args)]) + trailing(args));
    }
}

/// With no arguments, and where the first one is a flag, the verb is `build` and every argument
/// goes to cargo.
pub proof fn law_no_verb_means_build(args: Seq<String>)
    requires
        args.len() == 0 || begins_with(args[0]@, "-"@),
    ensures
        request(args) == Some((VerbView::Build, args)),
{
}

/// `run` compiles exactly like `build`.
pub proof fn law_run_compiles_like_build(args: Seq<String>)
    ensures
        compile_args_of(VerbView::Run(args)) == compile_args_of(VerbView::Build),
{
}

/// A request loses and reorders none of the arguments: the verb, what goes to cargo, the `--` where
/// there is one, and what goes past cargo are the arguments again.
pub proof fn law_request_keeps_every_argument(args: Seq<String>)
    requires
        names_verb(args),
    ensures
        match request(args) {
            Some((VerbView::Build, rest)) => args == seq![args[0]] + rest,
            Some((VerbView::Run(own), rest)) | Some((VerbView::Test(own), rest)) => {
                let at = 1 + dashes(args.skip(1));
                if at < args.len() {
                    args[at]@ == "--"@ && args == seq![args[0]] + rest + seq![args[at]] + own
                } else {
                    own.len() == 0 && args == seq![args[0]] + rest
                }
            },
            None => true,
        },
{
    let given = args.skip(1);
    assert(args =~= seq![args[0]] + given);
    lemma_dashes(given);
    law_split_keeps_every_argument(given);
    let at = 1 + dashes(given);
    if at < args.len() {
        assert(args =~= seq![args[0]] + leading(given) + seq![args[at]] + trailing(given));
    }
}

/// `at` is where the arguments after the first one divide: at the first `--` among them, or at their
/// end where there is none.
pub open spec fn divides_at(args: Seq<String>, at: int) -> bool {
    &&& 1 <= at <= args.len()
    &&& at < args.len() ==> args[at]@ == "--"@
    &&& forall|j: int| 1 <= j < at ==> (#[trigger] args[j])@ != "--"@
}

/// What each verb asks for. `build` hands every argument to cargo; `run` and `test` hand cargo what
/// comes before the `--`, and the binary or the harness what comes after it. Any other word is no
/// request.
pub proof fn law_each_verb_gets_its_arguments(args: Seq<String>, at: int)
    requires
        args.len() > 0,
        args[0]@.len() == 0 || args[0]@[0] != '-',
        divides_at(args, at),
    ensures
        ({
            let before = args.subrange(1, at);
            let after = if at < args.len() {
                args.subrange(at + 1, args.len() as int)
            } else {
                seq![]
            };
            &&& args[0]@ == "build"@ ==> request(args) == Some(
                (VerbView::Build, args.subrange(1, args.len() as int)),
            )
            &&& args[0]@ == "run"@ ==> request(args) == Some((VerbView::Run(after), before))
            &&& args[0]@ == "test"@ ==> request(args) == Some((VerbView::Test(after), before))
            &&& args[0]@ != "build"@ && args[0]@ != "run"@ && args[0]@ != "test"@ ==> request(
                args,
            ) is None
        }),
{
    reveal_strlit("-");
    reveal_strlit("build");
    reveal_strlit("run");
    reveal_strlit("test");
    assert("build"@.len() == 5 && "run"@.len() == 3 && "test"@.len() == 4);
    if args[0]@.len() > 0 {
        assert(args[0]@.take(1)[0] == args[0]@[0]);
        assert("-"@[0] == '-');
    }
    let given = args.skip(1);
    assert forall|j: int| 0 <= j < at - 1 implies (#[trigger] given[j])@ != "--"@ by {
        assert(given[j] == args[j + 1]);
    }
    lemma_dashes_at(given, at - 1);
    assert(given =~= args.subrange(1, args.len() as int));
    assert(leading(given) =~= args.subrange(1, at));
    if at < args.len() {
        assert(trailing(given) =~= args.subrange(at + 1, args.len() as int));
    }
}

/// A flag in front means `build`, with every argument for cargo.
pub proof fn law_flag_in_front_means_build(args: Seq<String>)
    requires
        args.len() > 0,
        args[0]@.len() > 0 && args[0]@[0] == '-',
    ensures
        request(args) == Some((VerbView::Build, args)),
{
    reveal_strlit("-");
    assert(args[0]@.take(1) =~= "-"@);
}

/// The name of the subcommand is dropped where cargo puts it, in front and once, and nothing else is
/// ever dropped.
pub proof fn law_subcommand_is_dropped_once(subcommand: Seq<char>, args: Seq<String>)
    ensures
        args.len() > 0 && args[0]@ == subcommand ==> own_args_of("cargo-"@ + subcommand, args)
            == args.subrange(1, args.len() as int),
        args.len() == 0 || args[0]@ != subcommand ==> own_args_of("cargo-"@ + subcommand, args)
            == args,
        !begins_with(subcommand, "cargo-"@) ==> own_args_of(subcommand, args) == args,
{
    let binary = "cargo-"@ + subcommand;
    assert(binary.take("cargo-"@.len() as int) =~= "cargo-"@);
    assert(binary.skip("cargo-"@.len() as int) =~= subcommand);
    if args.len() > 0 {
        assert(args.skip(1) =~= args.subrange(1, args.len() as int));
    }
}

/// The header shows the command as it would be typed: `cargo`, the verb and what goes to cargo,
/// separated by spaces, and behind ` -- ` what goes to the binary or the harness, where there is any.
pub proof fn law_header_shows_the_command(verb: VerbView, extra: Seq<Seq<char>>)
    ensures
        ({
            let label = match verb {
                VerbView::Build => "build"@,
                VerbView::Run(_) => "run"@,
                VerbView::Test(_) => "test"@,
            };
            let own = match verb {
                VerbView::Build => Seq::<String>::empty(),
                VerbView::Run(args) => args,
                VerbView::Test(args) => args,
            }.map_values(|a: String| a@);
            let front = "cargo "@ + label;
            &&& own.len() == 0 && extra.len() == 0 ==> flag_line_of(verb, extra) == front
            &&& own.len() == 0 && extra.len() > 0 ==> flag_line_of(verb, extra) == front + " "@
                + joined(extra, " "@)
            &&& own.len() > 0 ==> flag_line_of(verb, extra) == front + " "@ + joined(extra, " "@)
                + " -- "@ + joined(own, " "@)
        }),
{
    if verb is Build {
        assert(Seq::<String>::empty().map_values(|a: String| a@) =~= Seq::<Seq<char>>::empty());
    }
}

/// The cargo that compiles is told to build, or to build the tests without running them, and gets
/// every argument that is for it, in order and last; so does the one that prints the unit graph.
pub proof fn law_cargo_gets_its_arguments_in_order(verb: VerbView, extra: Seq<Seq<char>>)
    ensures
        ({
            let build = build_args_of(verb, extra);
            let graph = unit_graph_args_of(verb, extra);
            let n = if verb is Test {
                2int
            } else {
                1
            };
            &&& extra.is_suffix_of(build)
            &&& extra.is_suffix_of(graph)
            &&& build.take(n) == graph.take(n)
            &&& verb is Test ==> build.take(2) == seq!["test"@, "--no-run"@]
            &&& !(verb is Test) ==> build.take(1) == seq!["build"@]
            &&& build.len() == n + 2 + extra.len()
            &&& graph.len() == n + 4 + extra.len()
            &&& build[n] == "--message-format=json"@ && build[n + 1] == "--color=always"@
            &&& graph[n] == "--unit-graph"@ && graph[n + 1] == "-Z"@ && graph[n + 2]
                == "unstable-options"@ && graph[n + 3] == "--message-format=json"@
        }),
{
    let build = build_args_of(verb, extra);
    let graph = unit_graph_args_of(verb, extra);
    let n = if verb is Test {
        2int
    } else {
        1
    };
    assert(build.subrange(build.len() - extra.len(), build.len() as int) =~= extra);
    assert(graph.subrange(graph.len() - extra.len(), graph.len() as int) =~= extra);
    assert(build.take(n) =~= compile_args_of(verb));
    assert(graph.take(n) =~= compile_args_of(verb));
}

/// Every answer to an unknown verb begins as one of this command and quotes the verb.
pub proof fn law_reply_quotes_the_verb(v: Seq<char>, reply: Seq<char>)
    requires
        is_reply(v, reply),
    ensures
        begins_with(reply, "cargo pretty: "@),
        exists|at: int| #[trigger] occurs_at(reply, "`"@ + v + "`"@, at),
{
    let i = choose|i: int| 0 <= i < REPLIES && reply == #[trigger] reply_at(v, i);
    let head = "cargo pretty: "@;
    let line = reply_line(v, i);
    assert(reply.take(head.len() as int) =~= head);
    reveal_strlit("`");
    let quoted = "`"@ + v + "`"@;
    reveal_strlit("throw `");
    reveal_strlit("` at the Go compiler, not at me.");
    reveal_strlit("oh, so now you want `");
    reveal_strlit("`. where was `");
    reveal_strlit("don't come crying to me when `");
    reveal_strlit("` doesn't work either.");
    reveal_strlit("wow. `");
    reveal_strlit("`. after everything we've been through.");
    reveal_strlit("I saw the way you looked at `");
    reveal_strlit("`. we need to talk.");
    reveal_strlit("fine. FINE. go run `");
    reveal_strlit("` with someone else.");
    reveal_strlit("you always do this, you never even told me what `");
    reveal_strlit("` means to you.");
    reveal_strlit("if `");
    reveal_strlit("` mattered to you, you'd have told cargo about it first.");
    reveal_strlit("I'm not mad. I'm just disappointed you'd even try `");
    reveal_strlit("` on me.");
    reveal_strlit("so this is what we're doing now? `");
    reveal_strlit("`? really?");
    let before = if i == 0 {
        "throw `"@
    } else if i == 1 {
        "oh, so now you want `"@
    } else if i == 2 {
        "don't come crying to me when `"@
    } else if i == 3 {
        "wow. `"@
    } else if i == 4 {
        "I saw the way you looked at `"@
    } else if i == 5 {
        "fine. FINE. go run `"@
    } else if i == 6 {
        "you always do this, you never even told me what `"@
    } else if i == 7 {
        "if `"@
    } else if i == 8 {
        "I'm not mad. I'm just disappointed you'd even try `"@
    } else {
        "so this is what we're doing now? `"@
    };
    let at = head.len() + before.len() - 1;
    assert(reply.subrange(at, at + quoted.len()) =~= quoted);
    assert(occurs_at(reply, quoted, at));
}

} // verus!
