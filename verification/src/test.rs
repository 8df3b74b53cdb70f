//! What a test binary says while it runs, and what the view learns from it.

use crate::commands::{build_args_of, leading, request, trailing, VerbView};
use crate::events::{Event, EventView, Outcome, OutcomeView, Took};
use crate::json::{
    as_count, as_double_bits, count_of, double_bits_of, json_of, member, member_of, parse_text,
    text_at, text_member, text_of,
};
use crate::state::{applied, StateView};
use crate::text::{
    after_first, find_char, first_at, lemma_after_first, lemma_find_char, lemma_find_single, occurs,
    or_empty, push_all, push_text, rsplit_once, same_text, split_once, strip_suffix,
};
use vstd::prelude::*;
use vstd::string::*;

verus! {

// ---- where it panicked ----

/// `s` without the colons at its end.
pub open spec fn without_colons(s: Seq<char>) -> Seq<char>
    decreases s.len(),
{
    if s.len() > 0 && s.last() == ':' {
        without_colons(s.drop_last())
    } else {
        s
    }
}

/// The index of the last `c` in `s`, `-1` where there is none.
pub open spec fn rfind_char(s: Seq<char>, c: char) -> int
    decreases s.len(),
{
    if s.len() == 0 {
        -1
    } else if s.last() == c {
        s.len() - 1
    } else {
        rfind_char(s.drop_last(), c)
    }
}

/// The first line of what stands after the first `panicked at `, without the colons at its end:
/// `file:line:column`.
pub open spec fn panic_place(stdout: Seq<char>) -> Option<Seq<char>> {
    match after_first(stdout, "panicked at "@) {
        Some(after) => Some(without_colons(after.take(find_char(after, '\n')))),
        None => None,
    }
}

/// What stands before the last colon of the place, where that holds a colon in its turn:
/// `file:line`.
pub open spec fn location_in(stdout: Seq<char>) -> Option<Seq<char>> {
    match panic_place(stdout) {
        Some(place) => {
            let end = rfind_char(place, ':');
            if end >= 0 && place.take(end).contains(':') {
                Some(place.take(end))
            } else {
                None
            }
        },
        None => None,
    }
}

proof fn lemma_rfind_char(s: Seq<char>, c: char)
    ensures
        -1 <= rfind_char(s, c) < s.len(),
        rfind_char(s, c) >= 0 <==> s.contains(c),
        rfind_char(s, c) >= 0 ==> s[rfind_char(s, c)] == c,
        forall|i: int| rfind_char(s, c) < i < s.len() ==> s[i] != c,
    decreases s.len(),
{
    if s.len() > 0 {
        if s.last() == c {
            assert(s[s.len() - 1] == c);
        } else {
            let shorter = s.drop_last();
            lemma_rfind_char(shorter, c);
            if shorter.contains(c) {
                let i = choose|i: int| 0 <= i < shorter.len() && shorter[i] == c;
                assert(s[i] == c);
            }
            if s.contains(c) {
                let i = choose|i: int| 0 <= i < s.len() && s[i] == c;
                assert(shorter[i] == c);
            }
            assert forall|i: int| rfind_char(s, c) < i < s.len() implies s[i] != c by {
                if i < s.len() - 1 {
                    assert(shorter[i] == s[i]);
                }
            }
        }
    }
}

fn trim_colons<'a>(s: &'a str) -> (r: &'a str)
    ensures
        r@ == without_colons(s@),
{
    let mut rest: &'a str = s;
    proof {
        reveal_strlit(":");
        assert(":"@ =~= seq![':']);
    }
    loop
        invariant
            without_colons(s@) == without_colons(rest@),
            ":"@ == seq![':'],
        decreases rest@.len(),
    {
        proof {
            if rest@.len() > 0 {
                assert(rest@.skip(rest@.len() - 1) =~= seq![rest@.last()]);
                assert(rest@.skip(rest@.len() - 1)[0] == rest@.last());
                assert(rest@.take(rest@.len() - 1) =~= rest@.drop_last());
            }
        }
        match strip_suffix(rest, ":") {
            Some(shorter) => {
                rest = shorter;
            },
            None => {
                return rest;
            },
        }
    }
}

/// Pulls `file:line` from the panic hook's `thread '...' panicked at file:line:col:` line.
/// libtest's JSON has no separate location field, only this text carries it.
pub fn panic_location(stdout: &str) -> (r: Option<String>)
    ensures
        r.deep_view() == location_in(stdout@),
{
    let after = match split_once(stdout, "panicked at ") {
        Some((before, after)) => {
            proof {
                lemma_after_first(stdout@, "panicked at "@, before@.len() as int);
            }
            after
        },
        None => {
            return None;
        },
    };
    proof {
        reveal_strlit("\n");
        assert("\n"@ =~= seq!['\n']);
        lemma_find_single(after@, '\n');
        lemma_find_char(after@, '\n');
    }
    let line = match split_once(after, "\n") {
        Some((line, _)) => line,
        None => {
            assert(after@.take(after@.len() as int) =~= after@);
            after
        },
    };
    let place = trim_colons(line);
    proof {
        lemma_rfind_char(place@, ':');
    }
    match rsplit_once(place, ':') {
        Some((before, column)) => {
            proof {
                let end = before@.len() as int;
                assert(place@[end] == ':');
                assert forall|i: int| end < i < place@.len() implies place@[i] != ':' by {
                    assert(column@[i - end - 1] == place@[i]);
                }
                assert(place@.take(end) =~= before@);
            }
            if rsplit_once(before, ':').is_some() {
                Some(before.to_owned())
            } else {
                None
            }
        },
        None => None,
    }
}

/// A report of the panic hook gives back the file and the line that went into it, whatever stands
/// before and after it, and also where the file's name holds colons.
pub proof fn law_reported_place_is_found(
    before: Seq<char>,
    file: Seq<char>,
    line: Seq<char>,
    column: Seq<char>,
    rest: Seq<char>,
)
    requires
        !file.contains('\n') && !line.contains('\n') && !column.contains('\n'),
        !column.contains(':') && column.len() > 0,
        first_at(
            before + "panicked at "@ + file + seq![':'] + line + seq![':'] + column + seq![':', '\n']
                + rest,
            "panicked at "@,
            before.len() as int,
        ),
    ensures
        location_in(
            before + "panicked at "@ + file + seq![':'] + line + seq![':'] + column + seq![':', '\n']
                + rest,
        ) == Some(file + seq![':'] + line),
{
    let mark = "panicked at "@;
    let stdout = before + mark + file + seq![':'] + line + seq![':'] + column + seq![':', '\n']
        + rest;
    lemma_after_first(stdout, mark, before.len() as int);
    let found = file + seq![':'] + line;
    let place = found + seq![':'] + column;
    let shown = place.push(':');
    let after = shown.push('\n') + rest;
    assert(stdout.skip((before.len() + mark.len()) as int) =~= after);
    lemma_find_char(after, '\n');
    assert forall|i: int| 0 <= i < shown.len() implies after[i] != '\n' by {
        if i < file.len() {
            assert(after[i] == file[i]);
        } else if file.len() < i < found.len() {
            assert(after[i] == line[i - file.len() - 1]);
        } else if found.len() < i < place.len() {
            assert(after[i] == column[i - found.len() - 1]);
        }
    }
    assert(after[shown.len() as int] == '\n');
    assert(find_char(after, '\n') == shown.len());
    assert(after.take(shown.len() as int) =~= shown);
    assert(shown.drop_last() =~= place);
    assert(place.last() == column.last());
    assert(column.contains(column.last()));
    assert(without_colons(shown) == place) by {
        reveal_with_fuel(without_colons, 2);
    }
    lemma_rfind_char(place, ':');
    let end = found.len() as int;
    assert(place[end] == ':');
    assert forall|i: int| end < i < place.len() implies place[i] != ':' by {
        assert(place[i] == column[i - end - 1]);
    }
    assert(rfind_char(place, ':') == end);
    assert(place.take(end) =~= found);
    assert(found[file.len() as int] == ':');
}

// ---- libtest's messages ----

/// A message of libtest's JSON stream, as far as the view reads it.
#[derive(Debug, PartialEq, Eq)]
pub struct TestMessage {
    pub kind: Option<String>,
    pub event: Option<String>,
    pub name: Option<String>,
    pub test_count: Option<u64>,
    /// Seconds, as the bits of a double-precision number.
    pub exec_time: Option<u64>,
    pub stdout: Option<String>,
}

/// A [`TestMessage`] as a mathematical value.
pub struct TestMessageView {
    pub kind: Option<Seq<char>>,
    pub event: Option<Seq<char>>,
    pub name: Option<Seq<char>>,
    pub test_count: Option<u64>,
    pub exec_time: Option<u64>,
    pub stdout: Option<Seq<char>>,
}

impl View for TestMessage {
    type V = TestMessageView;

    open spec fn view(&self) -> TestMessageView {
        TestMessageView {
            kind: self.kind.deep_view(),
            event: self.event.deep_view(),
            name: self.name.deep_view(),
            test_count: self.test_count,
            exec_time: self.exec_time,
            stdout: self.stdout.deep_view(),
        }
    }
}

/// The message that a JSON value holds.
pub open spec fn message_of(value: serde_json::Value) -> TestMessageView {
    TestMessageView {
        kind: text_member(value, "type"@),
        event: text_member(value, "event"@),
        name: text_member(value, "name"@),
        test_count: match member_of(value, "test_count"@) {
            Some(found) => count_of(found),
            None => None,
        },
        exec_time: match member_of(value, "exec_time"@) {
            Some(found) => double_bits_of(found),
            None => None,
        },
        stdout: text_member(value, "stdout"@),
    }
}

/// The message says that a test has finished.
pub open spec fn is_finish(m: TestMessageView) -> bool {
    m.kind == Some("test"@) && (m.event == Some("ok"@) || m.event == Some("failed"@) || m.event
        == Some("ignored"@))
}

/// The outcome that an event stands for.
pub open spec fn outcome_of(event: Seq<char>, stdout: Seq<char>) -> OutcomeView {
    if event == "ok"@ {
        OutcomeView::Passed
    } else if event == "ignored"@ {
        OutcomeView::Ignored
    } else {
        OutcomeView::Failed { location: location_in(stdout), stdout }
    }
}

/// How long a finished test says it took; no time at all where it does not say.
pub open spec fn time_of(m: TestMessageView) -> Took {
    Took::SecondsBits(
        match m.exec_time {
            Some(bits) => bits,
            None => 0,
        },
    )
}

/// What a message reports to the view.
pub open spec fn test_event(m: TestMessageView) -> Option<EventView> {
    if m.kind == Some("suite"@) && m.event == Some("started"@) {
        match m.test_count {
            Some(total) => Some(EventView::SuiteStarted { total: total as usize }),
            None => None,
        }
    } else if m.kind == Some("test"@) && m.event == Some("started"@) {
        match m.name {
            Some(name) => Some(EventView::TestStarted(name)),
            None => None,
        }
    } else if is_finish(m) {
        Some(
            EventView::TestFinished {
                name: or_empty(m.name),
                took: time_of(m),
                outcome: outcome_of(m.event->0, or_empty(m.stdout)),
            },
        )
    } else {
        None
    }
}

/// The message says that a test has failed.
pub open spec fn is_failure(m: TestMessageView) -> bool {
    m.kind == Some("test"@) && m.event == Some("failed"@)
}

fn owned(text: Option<&str>) -> (r: Option<String>)
    ensures
        r.deep_view() == text.deep_view(),
{
    match text {
        Some(text) => Some(text.to_owned()),
        None => None,
    }
}

fn text_or_empty(text: Option<String>) -> (r: String)
    ensures
        r@ == or_empty(text.deep_view()),
{
    match text {
        Some(text) => text,
        None => String::new(),
    }
}

fn is_text(text: &Option<String>, expected: &str) -> (r: bool)
    ensures
        r == (text.deep_view() == Some(expected@)),
{
    match text {
        Some(text) => same_text(text.as_str(), expected),
        None => false,
    }
}

/// Reads a message out of a JSON value.
pub fn read_message(value: &serde_json::Value) -> (r: TestMessage)
    ensures
        r@ == message_of(*value),
{
    TestMessage {
        kind: owned(text_at(value, "type")),
        event: owned(text_at(value, "event")),
        name: owned(text_at(value, "name")),
        test_count: match member(value, "test_count") {
            Some(found) => as_count(found),
            None => None,
        },
        exec_time: match member(value, "exec_time") {
            Some(found) => as_double_bits(found),
            None => None,
        },
        stdout: owned(text_at(value, "stdout")),
    }
}

/// Builds the `Outcome` for one libtest `test` event, shared by the full suite run and the
/// single-test retry.
pub fn outcome_from(event: &str, stdout: String) -> (r: Outcome)
    ensures
        r.deep_view() == outcome_of(event@, stdout@),
{
    if same_text(event, "ok") {
        Outcome::Passed
    } else if same_text(event, "ignored") {
        Outcome::Ignored
    } else {
        let location = panic_location(stdout.as_str());
        Outcome::Failed { location, stdout }
    }
}

fn finished(message: &TestMessage) -> (r: bool)
    ensures
        r == is_finish(message@),
{
    is_text(&message.kind, "test") && (is_text(&message.event, "ok") || is_text(
        &message.event,
        "failed",
    ) || is_text(&message.event, "ignored"))
}

fn time_taken(message: &TestMessage) -> (r: Took)
    ensures
        r == time_of(message@),
{
    Took::SecondsBits(
        match message.exec_time {
            Some(bits) => bits,
            None => 0,
        },
    )
}

proof fn lemma_event_names_differ()
    ensures
        "suite"@ != "test"@,
        "started"@ != "ok"@,
        "started"@ != "failed"@,
        "started"@ != "ignored"@,
{
    reveal_strlit("suite");
    reveal_strlit("test");
    reveal_strlit("started");
    reveal_strlit("ok");
    reveal_strlit("failed");
    reveal_strlit("ignored");
    assert("suite"@.len() != "test"@.len());
    assert("started"@.len() != "ok"@.len());
    assert("started"@.len() != "failed"@.len());
    assert("started"@[0] != "ignored"@[0]);
}

/// One test binary that is running.
pub struct TestRun {
    /// No test of it has failed so far.
    pub ok: bool,
}

impl TestRun {
    /// A binary that has just been started.
    pub fn new() -> (r: TestRun)
        ensures
            r.ok,
    {
        TestRun { ok: true }
    }

    /// Takes in one message of the binary, and hands out what it reports to the view.
    pub fn on_message(&mut self, message: TestMessage) -> (r: Option<Event>)
        ensures
            final(self).ok == (old(self).ok && !is_failure(message@)),
            r.deep_view() == test_event(message@),
    {
        proof {
            lemma_event_names_differ();
        }
        if is_text(&message.kind, "suite") && is_text(&message.event, "started") {
            return match message.test_count {
                Some(total) => Some(Event::SuiteStarted { total: total as usize }),
                None => None,
            };
        }
        if is_text(&message.kind, "test") && is_text(&message.event, "started") {
            return match message.name {
                Some(name) => Some(Event::TestStarted(name)),
                None => None,
            };
        }
        if !finished(&message) {
            return None;
        }
        if is_text(&message.event, "failed") {
            self.ok = false;
        }
        let took = time_taken(&message);
        let event = text_or_empty(message.event);
        let outcome = outcome_from(event.as_str(), text_or_empty(message.stdout));
        Some(Event::TestFinished { name: text_or_empty(message.name), took, outcome })
    }

    /// Takes in how the binary exited: one that dies without a word has not passed either.
    pub fn on_exit(&mut self, success: bool)
        ensures
            final(self).ok == (old(self).ok && success),
    {
        self.ok = self.ok && success;
    }

    /// Takes in one line of the binary's output. A line that is not JSON reports nothing.
    pub fn on_line(&mut self, line: &str) -> (r: Option<Event>)
        ensures
            json_of(line@) is None ==> final(self).ok == old(self).ok && r is None,
            json_of(line@) matches Some(value) ==> {
                &&& final(self).ok == (old(self).ok && !is_failure(message_of(value)))
                &&& r.deep_view() == test_event(message_of(value))
            },
    {
        match parse_text(line) {
            Some(value) => self.on_message(read_message(&value)),
            None => None,
        }
    }
}

/// No message says that a test has failed.
pub open spec fn ok_after(messages: Seq<TestMessageView>) -> bool
    decreases messages.len(),
{
    messages.len() == 0 || (ok_after(messages.drop_last()) && !is_failure(messages.last()))
}

/// A binary has passed exactly where it exits well and no message of it says that a test failed.
pub proof fn law_binary_passes_where_it_exits_well(messages: Seq<TestMessageView>, success: bool)
    ensures
        (ok_after(messages) && success) <==> (success && forall|i: int|
            0 <= i < messages.len() ==> !((#[trigger] messages[i]).kind == Some("test"@)
                && messages[i].event == Some("failed"@))),
    decreases messages.len(),
{
    if messages.len() > 0 {
        let before = messages.drop_last();
        law_binary_passes_where_it_exits_well(before, success);
        assert forall|i: int| 0 <= i < before.len() implies before[i] == messages[i] by {}
        if ok_after(messages) && success {
            assert forall|i: int| 0 <= i < messages.len() implies !is_failure(
                #[trigger] messages[i],
            ) by {
                if i < before.len() {
                    assert(!is_failure(before[i]));
                }
            }
        }
        if success && forall|i: int|
            0 <= i < messages.len() ==> !is_failure(#[trigger] messages[i]) {
            assert(!is_failure(messages[messages.len() - 1]));
            assert forall|i: int| 0 <= i < before.len() implies !is_failure(
                #[trigger] before[i],
            ) by {
                assert(!is_failure(messages[i]));
            }
        }
    }
}

// ---- the arguments of a test binary ----

/// The flags that every test binary gets: JSON, which libtest gates as unstable, and the time that
/// each test takes.
pub open spec fn harness_flags() -> Seq<Seq<char>> {
    seq!["--format"@, "json"@, "-Z"@, "unstable-options"@, "--report-time"@]
}

/// The arguments of a test binary: the fixed flags, then every harness argument in order.
pub open spec fn test_args_of(harness_args: Seq<Seq<char>>) -> Seq<Seq<char>> {
    harness_flags() + harness_args
}

/// The arguments of a test binary that runs one test again.
pub open spec fn rerun_args_of(name: Seq<char>) -> Seq<Seq<char>> {
    harness_flags() + seq!["--exact"@, name]
}

fn fixed_flags() -> (r: Vec<String>)
    ensures
        r.deep_view() == harness_flags(),
{
    let mut out: Vec<String> = Vec::new();
    assert(out.deep_view() =~= Seq::<Seq<char>>::empty());
    push_text(&mut out, "--format");
    push_text(&mut out, "json");
    push_text(&mut out, "-Z");
    push_text(&mut out, "unstable-options");
    push_text(&mut out, "--report-time");
    assert(out.deep_view() =~= harness_flags());
    out
}

/// The arguments of a test binary.
pub fn test_args(harness_args: &Vec<String>) -> (r: Vec<String>)
    ensures
        r.deep_view() == test_args_of(harness_args.deep_view()),
{
    let mut out = fixed_flags();
    push_all(&mut out, harness_args);
    out
}

/// The arguments of a test binary that runs the test `name` again, and no other.
pub fn rerun_args(name: &str) -> (r: Vec<String>)
    ensures
        r.deep_view() == rerun_args_of(name@),
{
    let mut out = fixed_flags();
    push_text(&mut out, "--exact");
    push_text(&mut out, name);
    assert(out.deep_view() =~= rerun_args_of(name@));
    out
}

/// What is typed after `test` reaches its place, in order: what comes before the `--` goes to cargo,
/// and what comes after it to every test binary.
pub proof fn law_test_arguments_reach_their_place(args: Seq<String>)
    requires
        args.len() > 0,
        args[0]@ == "test"@,
    ensures
        request(args) == Some(
            (VerbView::Test(trailing(args.skip(1))), leading(args.skip(1))),
        ),
        ({
            let own = trailing(args.skip(1)).map_values(|a: String| a@);
            let rest = leading(args.skip(1)).map_values(|a: String| a@);
            &&& test_args_of(own).skip(harness_flags().len() as int) == own
            &&& rest.is_suffix_of(build_args_of(VerbView::Test(trailing(args.skip(1))), rest))
        }),
{
    reveal_strlit("test");
    reveal_strlit("build");
    reveal_strlit("run");
    reveal_strlit("-");
    assert("test"@.len() != "build"@.len() && "test"@.len() != "run"@.len());
    assert("test"@.take(1)[0] != "-"@[0]);
    let own = trailing(args.skip(1)).map_values(|a: String| a@);
    let rest = leading(args.skip(1)).map_values(|a: String| a@);
    assert(test_args_of(own).skip(harness_flags().len() as int) =~= own);
    let all = build_args_of(VerbView::Test(trailing(args.skip(1))), rest);
    assert(all.subrange(all.len() - rest.len(), all.len() as int) =~= rest);
}

// ---- the binaries in turn ----

/// The harness arguments ask to go on after a failure.
pub open spec fn goes_on(harness_args: Seq<String>) -> bool {
    exists|k: int| 0 <= k < harness_args.len() && (#[trigger] harness_args[k])@ == "--no-fail-fast"@
}

/// The test binaries, run one after the other exactly like cargo's own test runner: one binary at
/// a time, stopping at the first failure unless the harness args carry `--no-fail-fast`.
pub struct Run {
    pub no_fail_fast: bool,
    /// Every test in every binary so far has passed.
    pub all_ok: bool,
}

impl Run {
    /// Before the first binary.
    pub fn new(harness_args: &Vec<String>) -> (r: Run)
        ensures
            r.no_fail_fast == goes_on(harness_args@),
            r.all_ok,
    {
        let mut i: usize = 0;
        while i < harness_args.len()
            invariant
                i <= harness_args.len(),
                forall|k: int|
                    0 <= k < i ==> (#[trigger] harness_args@[k])@ != "--no-fail-fast"@,
            decreases harness_args.len() - i,
        {
            if same_text(harness_args[i].as_str(), "--no-fail-fast") {
                assert(harness_args@[i as int]@ == "--no-fail-fast"@);
                return Run { no_fail_fast: true, all_ok: true };
            }
            i = i + 1;
        }
        Run { no_fail_fast: false, all_ok: true }
    }

    /// Takes in how a binary ended, and tells whether the next one runs.
    pub fn finished(&mut self, ok: bool) -> (next: bool)
        ensures
            *final(self) == after_binary(*old(self), ok),
            next == runs_next(old(self).no_fail_fast, ok),
    {
        self.all_ok = self.all_ok && ok;
        ok || self.no_fail_fast
    }
}

/// The run after one more binary.
pub open spec fn after_binary(run: Run, ok: bool) -> Run {
    Run { no_fail_fast: run.no_fail_fast, all_ok: run.all_ok && ok }
}

/// The next binary runs after one that ended so.
pub open spec fn runs_next(no_fail_fast: bool, ok: bool) -> bool {
    ok || no_fail_fast
}

/// How many of the binaries run, where `results` says how each of them would end.
pub open spec fn binaries_run(no_fail_fast: bool, results: Seq<bool>) -> nat
    decreases results.len(),
{
    if results.len() == 0 {
        0
    } else if runs_next(no_fail_fast, results[0]) {
        1 + binaries_run(no_fail_fast, results.skip(1))
    } else {
        1
    }
}

/// The run after the binaries that run.
pub open spec fn after_binaries(run: Run, results: Seq<bool>) -> Run
    decreases results.len(),
{
    if results.len() == 0 {
        run
    } else if runs_next(run.no_fail_fast, results[0]) {
        after_binaries(after_binary(run, results[0]), results.skip(1))
    } else {
        after_binary(run, results[0])
    }
}

/// With `--no-fail-fast` every binary runs. Without it, the binaries run up to the first one that
/// fails, that one included, and none after it. Either way the run ends well exactly where no
/// binary fails.
pub proof fn law_stops_at_first_failure(run: Run, results: Seq<bool>)
    ensures
        run.no_fail_fast ==> binaries_run(true, results) == results.len(),
        !run.no_fail_fast ==> {
            let n = binaries_run(false, results) as int;
            &&& n <= results.len()
            &&& forall|i: int| 0 <= i < n - 1 ==> #[trigger] results[i]
            &&& n < results.len() ==> n > 0 && !results[n - 1]
        },
        after_binaries(run, results).all_ok == (run.all_ok && forall|i: int|
            0 <= i < results.len() ==> #[trigger] results[i]),
    decreases results.len(),
{
    if results.len() > 0 {
        let rest = results.skip(1);
        let next = after_binary(run, results[0]);
        law_stops_at_first_failure(next, rest);
        assert forall|i: int| 1 <= i < results.len() implies results[i] == rest[i - 1] by {}
        if runs_next(run.no_fail_fast, results[0]) {
            let all_rest = forall|i: int| 0 <= i < rest.len() ==> #[trigger] rest[i];
            let all = forall|i: int| 0 <= i < results.len() ==> #[trigger] results[i];
            if all {
                assert forall|i: int| 0 <= i < rest.len() implies #[trigger] rest[i] by {
                    assert(results[i + 1]);
                }
            }
            if results[0] && all_rest {
                assert forall|i: int| 0 <= i < results.len() implies #[trigger] results[i] by {
                    if i > 0 {
                        assert(rest[i - 1]);
                    }
                }
            }
            if !run.no_fail_fast {
                let n = binaries_run(false, results) as int;
                assert forall|i: int| 0 <= i < n - 1 implies #[trigger] results[i] by {
                    if i > 0 {
                        assert(rest[i - 1]);
                    }
                }
                if n < results.len() {
                    assert(rest[n - 2] == results[n - 1]);
                }
            }
        }
    }
}

// ---- one test again ----

/// One binary that is running again for one test.
pub struct Rerun {
    pub name: String,
    /// The binary has the test: it has said that it started.
    pub started: bool,
    /// How the test ended, `None` as long as the binary has not said.
    pub result: Option<(Took, Outcome)>,
}

/// A [`Rerun`] as a mathematical value.
pub struct RerunView {
    pub name: Seq<char>,
    pub started: bool,
    pub result: Option<(Took, OutcomeView)>,
}

impl View for Rerun {
    type V = RerunView;

    open spec fn view(&self) -> RerunView {
        RerunView { name: self.name@, started: self.started, result: self.result.deep_view() }
    }
}

/// The message says that the test `name` has started.
pub open spec fn is_start_of(m: TestMessageView, name: Seq<char>) -> bool {
    m.kind == Some("test"@) && m.event == Some("started"@) && m.name == Some(name)
}

/// The message says how the test `name` ended.
pub open spec fn is_finish_of(m: TestMessageView, name: Seq<char>) -> bool {
    is_finish(m) && m.name == Some(name)
}

/// The rerun after one more message.
pub open spec fn after_rerun_message(rerun: RerunView, m: TestMessageView) -> RerunView {
    RerunView {
        name: rerun.name,
        started: rerun.started || is_start_of(m, rerun.name),
        result: if is_finish_of(m, rerun.name) {
            Some((time_of(m), outcome_of(m.event->0, or_empty(m.stdout))))
        } else {
            rerun.result
        },
    }
}

/// The rerun once the binary has ended: a test that started and of whose end nothing was said took
/// the binary down with it, and has failed.
pub open spec fn at_rerun_end(rerun: RerunView) -> RerunView {
    if rerun.started && rerun.result is None {
        RerunView {
            result: Some(
                (
                    Took::Nanos(0),
                    OutcomeView::Failed {
                        location: None,
                        stdout: "test `"@ + rerun.name + "` did not finish"@,
                    },
                ),
            ),
            ..rerun
        }
    } else {
        rerun
    }
}

impl Rerun {
    /// A binary that has just been started, filtered to exactly one test.
    pub fn new(name: &str) -> (r: Rerun)
        ensures
            r@ == (RerunView { name: name@, started: false, result: None }),
    {
        Rerun { name: name.to_owned(), started: false, result: None }
    }

    /// Takes in one message of the binary.
    pub fn on_message(&mut self, message: TestMessage)
        ensures
            final(self)@ == after_rerun_message(old(self)@, message@),
    {
        if !is_text(&message.name, self.name.as_str()) {
            return;
        }
        if is_text(&message.kind, "test") && is_text(&message.event, "started") {
            self.started = true;
        }
        if finished(&message) {
            let took = time_taken(&message);
            let event = text_or_empty(message.event);
            let outcome = outcome_from(event.as_str(), text_or_empty(message.stdout));
            self.result = Some((took, outcome));
        }
    }

    /// Takes in one line of the binary's output. A line that is not JSON says nothing.
    pub fn on_line(&mut self, line: &str)
        ensures
            final(self)@ == match json_of(line@) {
                Some(value) => after_rerun_message(old(self)@, message_of(value)),
                None => old(self)@,
            },
    {
        match parse_text(line) {
            Some(value) => {
                self.on_message(read_message(&value));
            },
            None => {},
        }
    }

    /// Takes in that the binary has ended.
    pub fn ended(&mut self)
        ensures
            final(self)@ == at_rerun_end(old(self)@),
    {
        if self.started && self.result.is_none() {
            let mut stdout = "test `".to_owned();
            stdout.append(self.name.as_str());
            stdout.append("` did not finish");
            self.result = Some((Took::Nanos(0), Outcome::Failed { location: None, stdout }));
        }
    }
}

/// The rerun after several messages.
pub open spec fn after_rerun_messages(rerun: RerunView, messages: Seq<TestMessageView>) -> RerunView
    decreases messages.len(),
{
    if messages.len() == 0 {
        rerun
    } else {
        after_rerun_message(after_rerun_messages(rerun, messages.drop_last()), messages.last())
    }
}

/// The message speaks of the test `name`.
pub open spec fn tells_of(m: TestMessageView, name: Seq<char>) -> bool {
    is_start_of(m, name) || is_finish_of(m, name)
}

/// A binary that has ended has no answer exactly where it never spoke of the test.
pub proof fn law_binary_answers_where_it_has_the_test(
    name: Seq<char>,
    messages: Seq<TestMessageView>,
)
    ensures
        ({
            let start = RerunView { name, started: false, result: None };
            at_rerun_end(after_rerun_messages(start, messages)).result is None <==> forall|i: int|
                0 <= i < messages.len() ==> !tells_of(#[trigger] messages[i], name)
        }),
    decreases messages.len(),
{
    let start = RerunView { name, started: false, result: None };
    lemma_rerun_keeps_name(start, messages);
    if messages.len() > 0 {
        let before = messages.drop_last();
        lemma_rerun_keeps_name(start, before);
        law_binary_answers_where_it_has_the_test(name, before);
        assert forall|i: int| 0 <= i < before.len() implies before[i] == messages[i] by {}
        let silent = forall|i: int|
            0 <= i < messages.len() ==> !tells_of(#[trigger] messages[i], name);
        let silent_before = forall|i: int|
            0 <= i < before.len() ==> !tells_of(#[trigger] before[i], name);
        if silent {
            assert forall|i: int| 0 <= i < before.len() implies !tells_of(
                #[trigger] before[i],
                name,
            ) by {
                assert(!tells_of(messages[i], name));
            }
            assert(!tells_of(messages[messages.len() - 1], name));
        }
        if silent_before && !tells_of(messages.last(), name) {
            assert forall|i: int| 0 <= i < messages.len() implies !tells_of(
                #[trigger] messages[i],
                name,
            ) by {
                if i < before.len() {
                    assert(!tells_of(before[i], name));
                }
            }
        }
    }
}

proof fn lemma_rerun_keeps_name(rerun: RerunView, messages: Seq<TestMessageView>)
    ensures
        after_rerun_messages(rerun, messages).name == rerun.name,
    decreases messages.len(),
{
    if messages.len() > 0 {
        lemma_rerun_keeps_name(rerun, messages.drop_last());
    }
}

/// What a retry comes to: the error text of a rebuild that failed, else what the first binary that
/// has the test says of it, `found`.
pub open spec fn retried(
    built: bool,
    errors: Seq<char>,
    found: Option<(Took, OutcomeView)>,
    name: Seq<char>,
) -> (Took, OutcomeView) {
    let none: Took = Took::Nanos(0);
    if !built {
        (none, OutcomeView::Failed { location: None, stdout: errors })
    } else {
        match found {
            Some(result) => result,
            None => (
                none,
                OutcomeView::Failed {
                    location: None,
                    stdout: "test `"@ + name + "` did not run in any binary after the rebuild"@,
                },
            ),
        }
    }
}

/// Decides what rerunning the test `name` after a quiet rebuild came to.
pub fn retry(
    built: bool,
    errors: String,
    found: Option<(Took, Outcome)>,
    name: &str,
) -> (r: (Took, Outcome))
    ensures
        r.deep_view() == retried(built, errors@, found.deep_view(), name@),
{
    if !built {
        return (Took::Nanos(0), Outcome::Failed { location: None, stdout: errors });
    }
    match found {
        Some(result) => result,
        None => {
            let mut stdout = "test `".to_owned();
            stdout.append(name);
            stdout.append("` did not run in any binary after the rebuild");
            (Took::Nanos(0), Outcome::Failed { location: None, stdout })
        },
    }
}

/// Whether one more binary is asked for the test: the rebuild succeeded, and no binary so far has
/// had it.
pub fn tries_next(built: bool, found: &Option<(Took, Outcome)>) -> (r: bool)
    ensures
        r == (built && found is None),
{
    built && found.is_none()
}

/// What the binaries come to, asked one after the other as long as `tries_next` says so, where
/// `answers` says what each of them would answer and `found` what the ones before them did.
pub open spec fn searched(
    built: bool,
    found: Option<(Took, OutcomeView)>,
    answers: Seq<Option<(Took, OutcomeView)>>,
) -> Option<(Took, OutcomeView)>
    decreases answers.len(),
{
    if answers.len() == 0 || !(built && found is None) {
        found
    } else {
        searched(built, answers[0], answers.skip(1))
    }
}

/// How many of the binaries are asked.
pub open spec fn binaries_asked(
    built: bool,
    found: Option<(Took, OutcomeView)>,
    answers: Seq<Option<(Took, OutcomeView)>>,
) -> nat
    decreases answers.len(),
{
    if answers.len() == 0 || !(built && found is None) {
        0
    } else {
        1 + binaries_asked(built, answers[0], answers.skip(1))
    }
}

/// After a failed rebuild no binary is asked. After one that succeeded they are asked in order, up
/// to the first that has the test: its answer decides the retry, and none after it is asked. Where
/// none has the test, all are asked, and nothing is found.
pub proof fn law_first_answer_decides(
    built: bool,
    errors: Seq<char>,
    answers: Seq<Option<(Took, OutcomeView)>>,
    name: Seq<char>,
)
    ensures
        !built ==> binaries_asked(built, None, answers) == 0,
        built ==> {
            let n = binaries_asked(built, None, answers) as int;
            &&& n <= answers.len()
            &&& forall|i: int| 0 <= i < n - 1 ==> #[trigger] answers[i] is None
            &&& n < answers.len() ==> n > 0 && answers[n - 1] is Some
            &&& searched(built, None, answers) == if n > 0 {
                answers[n - 1]
            } else {
                None
            }
            &&& n > 0 && answers[n - 1] is Some ==> retried(
                built,
                errors,
                searched(built, None, answers),
                name,
            ) == answers[n - 1]->0
        },
    decreases answers.len(),
{
    if built && answers.len() > 0 {
        let rest = answers.skip(1);
        if answers[0] is None {
            law_first_answer_decides(built, errors, rest, name);
            let n = binaries_asked(built, None, answers) as int;
            assert forall|i: int| 0 <= i < n - 1 implies #[trigger] answers[i] is None by {
                if i > 0 {
                    assert(rest[i - 1] is None);
                }
            }
            if n > 1 {
                assert(rest[n - 2] == answers[n - 1]);
            }
        } else {
            assert(binaries_asked(built, answers[0], rest) == 0);
            assert(searched(built, answers[0], rest) == answers[0]);
        }
    }
}

// ---- what the tests come to ----

/// The message says how the test `name` ended: it passed, it failed, or it was ignored.
pub open spec fn ends_test(m: TestMessageView, name: Seq<char>) -> bool {
    &&& m.kind == Some("test"@)
    &&& m.name == Some(name)
    &&& m.event == Some("ok"@) || m.event == Some("failed"@) || m.event == Some("ignored"@)
}

/// The outcome is the one that the message tells: passed for `ok`, ignored for `ignored`, and failed
/// for `failed`, with what the test printed and the place in it.
pub open spec fn tells_outcome(m: TestMessageView, outcome: OutcomeView) -> bool {
    &&& m.event == Some("ok"@) <==> outcome is Passed
    &&& m.event == Some("ignored"@) <==> outcome is Ignored
    &&& m.event == Some("failed"@) <==> outcome is Failed
    &&& outcome matches OutcomeView::Failed { location, stdout } ==> {
        &&& m.stdout is Some ==> stdout == m.stdout->0
        &&& m.stdout is None ==> stdout.len() == 0
        &&& location == location_in(stdout)
    }
}

/// The time is the one that the message tells, in seconds, and none where it tells none.
pub open spec fn tells_time(m: TestMessageView, took: Took) -> bool {
    &&& m.exec_time is Some ==> took == Took::SecondsBits(m.exec_time->0)
    &&& m.exec_time is None ==> took == Took::SecondsBits(0)
}

proof fn lemma_outcomes_differ()
    ensures
        "ok"@ != "failed"@,
        "ok"@ != "ignored"@,
        "failed"@ != "ignored"@,
{
    reveal_strlit("ok");
    reveal_strlit("failed");
    reveal_strlit("ignored");
    assert("ok"@.len() != "failed"@.len());
    assert("ok"@.len() != "ignored"@.len());
    assert("failed"@.len() != "ignored"@.len());
}

/// A rerun comes to what the last message on how the test ended says, the one at `at`: a test that
/// failed again has failed, with what it printed now, and only one that passed has passed.
pub proof fn law_last_message_decides_the_rerun(
    name: Seq<char>,
    messages: Seq<TestMessageView>,
    at: int,
)
    requires
        0 <= at < messages.len(),
        ends_test(messages[at], name),
        forall|j: int| at < j < messages.len() ==> !ends_test(#[trigger] messages[j], name),
    ensures
        ({
            let start = RerunView { name, started: false, result: None };
            let end = at_rerun_end(after_rerun_messages(start, messages));
            &&& end.result matches Some((took, outcome))
            &&& tells_time(messages[at], took)
            &&& tells_outcome(messages[at], outcome)
        }),
    decreases messages.len(),
{
    lemma_outcomes_differ();
    let start = RerunView { name, started: false, result: None };
    let before = messages.drop_last();
    lemma_rerun_keeps_name(start, before);
    if at < before.len() {
        assert(!ends_test(messages[messages.len() - 1], name));
        assert(forall|j: int| 0 <= j < before.len() ==> #[trigger] before[j] == messages[j]);
        law_last_message_decides_the_rerun(name, before, at);
        lemma_rerun_has_result(name, before, at);
    }
}

proof fn lemma_rerun_has_result(name: Seq<char>, messages: Seq<TestMessageView>, at: int)
    requires
        0 <= at < messages.len(),
        ends_test(messages[at], name),
    ensures
        after_rerun_messages(
            RerunView { name, started: false, result: None },
            messages,
        ).result is Some,
    decreases messages.len(),
{
    let before = messages.drop_last();
    lemma_rerun_keeps_name(RerunView { name, started: false, result: None }, before);
    if at < before.len() {
        assert(before[at] == messages[at]);
        lemma_rerun_has_result(name, before, at);
    }
}

/// A rerun that says that the test started, and never how it ended, has failed.
pub proof fn law_unfinished_rerun_has_failed(
    name: Seq<char>,
    messages: Seq<TestMessageView>,
    at: int,
)
    requires
        0 <= at < messages.len(),
        messages[at].kind == Some("test"@) && messages[at].event == Some("started"@)
            && messages[at].name == Some(name),
        forall|j: int| 0 <= j < messages.len() ==> !ends_test(#[trigger] messages[j], name),
    ensures
        ({
            let start = RerunView { name, started: false, result: None };
            let end = at_rerun_end(after_rerun_messages(start, messages));
            &&& end.result matches Some((_, outcome))
            &&& outcome is Failed
        }),
{
    lemma_rerun_is_silent(name, messages, at);
}

proof fn lemma_rerun_is_silent(name: Seq<char>, messages: Seq<TestMessageView>, at: int)
    requires
        forall|j: int| 0 <= j < messages.len() ==> !ends_test(#[trigger] messages[j], name),
    ensures
        ({
            let start = RerunView { name, started: false, result: None };
            let run = after_rerun_messages(start, messages);
            &&& run.result is None
            &&& run.name == name
            &&& 0 <= at < messages.len() && messages[at].kind == Some("test"@)
                && messages[at].event == Some("started"@) && messages[at].name == Some(name)
                ==> run.started
        }),
    decreases messages.len(),
{
    if messages.len() > 0 {
        let before = messages.drop_last();
        assert(forall|j: int| 0 <= j < before.len() ==> #[trigger] before[j] == messages[j]);
        lemma_rerun_is_silent(name, before, at);
        assert(!ends_test(messages[messages.len() - 1], name));
        if 0 <= at < before.len() {
            assert(before[at] == messages[at]);
        }
    }
}

/// What the view hears of a message on a test: that it started, or how it ended, by its name. It
/// hears of a passed test exactly where the message says `ok`, and so on.
pub proof fn law_view_hears_how_a_test_ended(m: TestMessageView)
    requires
        m.kind == Some("test"@),
    ensures
        m.event == Some("started"@) && m.name is Some ==> test_event(m) == Some(
            EventView::TestStarted(m.name->0),
        ),
        m.event == Some("started"@) && m.name is None ==> test_event(m) is None,
        m.event == Some("ok"@) || m.event == Some("failed"@) || m.event == Some("ignored"@) ==> {
            &&& test_event(m) is Some
            &&& test_event(m)->0 is TestFinished
            &&& m.name is Some ==> test_event(m)->0->TestFinished_name == m.name->0
            &&& m.name is None ==> test_event(m)->0->TestFinished_name.len() == 0
            &&& tells_time(m, test_event(m)->0->TestFinished_took)
            &&& tells_outcome(m, test_event(m)->0->TestFinished_outcome)
        },
        !(m.event == Some("started"@) || m.event == Some("ok"@) || m.event == Some("failed"@)
            || m.event == Some("ignored"@)) ==> test_event(m) is None,
{
    lemma_outcomes_differ();
    lemma_event_names_differ();
}

/// What the view hears of a message on a test binary: that it started, with how many tests. It hears
/// nothing of any other message.
pub proof fn law_view_hears_how_many_tests_there_are(m: TestMessageView)
    requires
        m.kind != Some("test"@),
    ensures
        m.kind == Some("suite"@) && m.event == Some("started"@) && m.test_count is Some
            ==> test_event(m) == Some(
            EventView::SuiteStarted { total: m.test_count->0 as usize },
        ),
        !(m.kind == Some("suite"@) && m.event == Some("started"@) && m.test_count is Some)
            ==> test_event(m) is None,
{
}

/// A test that fails is listed as failed, by its name and with what it printed, and one that passes
/// as done; a test that is ignored is listed as neither.
pub proof fn law_failing_test_is_listed(m: TestMessageView, s: StateView, now: u64, disk: u64)
    requires
        m.kind == Some("test"@),
        m.name is Some,
        m.event == Some("ok"@) || m.event == Some("failed"@) || m.event == Some("ignored"@),
        s.progress.seen < usize::MAX,
    ensures
        ({
            let t = applied(s, test_event(m)->0, now, disk);
            &&& t.progress.seen == s.progress.seen + 1
            &&& m.event == Some("failed"@) ==> {
                &&& t.progress.done == s.progress.done
                &&& t.failed.items.len() == s.failed.items.len() + 1
                &&& t.failed.items.drop_last() == s.failed.items
                &&& t.failed.items.last().name == m.name->0
                &&& m.stdout is Some ==> t.failed.items.last().stdout == m.stdout->0
            }
            &&& m.event != Some("failed"@) ==> t.failed == s.failed
            &&& m.event == Some("ok"@) ==> {
                &&& t.progress.done.len() == s.progress.done.len() + 1
                &&& t.progress.done.drop_last() == s.progress.done
                &&& t.progress.done.last().name == m.name->0
            }
            &&& m.event == Some("ignored"@) ==> t.progress.done == s.progress.done
        }),
{
    lemma_outcomes_differ();
    lemma_event_names_differ();
    let t = applied(s, test_event(m)->0, now, disk);
    if m.event == Some("failed"@) {
        assert(t.failed.items.drop_last() =~= s.failed.items);
    }
    if m.event == Some("ok"@) {
        assert(t.progress.done.drop_last() =~= s.progress.done);
    }
}

/// The run goes on after a failure exactly where `--no-fail-fast` is among the harness arguments.
pub proof fn law_no_fail_fast_asks_to_go_on(harness_args: Seq<String>, i: int)
    ensures
        0 <= i < harness_args.len() && harness_args[i]@ == "--no-fail-fast"@ ==> goes_on(
            harness_args,
        ),
        (forall|k: int|
            0 <= k < harness_args.len() ==> (#[trigger] harness_args[k])@ != "--no-fail-fast"@)
            ==> !goes_on(harness_args),
{
}

/// A retry that cannot rebuild has failed with the compiler's errors, and one that no binary has the
/// test for has failed, naming the test. Any other comes to what was found.
pub proof fn law_retry_says_what_happened(
    built: bool,
    errors: Seq<char>,
    found: Option<(Took, OutcomeView)>,
    name: Seq<char>,
)
    ensures
        ({
            let (took, outcome) = retried(built, errors, found, name);
            &&& !built ==> took == Took::Nanos(0) && outcome == (OutcomeView::Failed {
                location: None,
                stdout: errors,
            })
            &&& built && found is Some ==> (took, outcome) == found->0
            &&& built && found is None ==> took == Took::Nanos(0) && outcome
                == (OutcomeView::Failed {
                location: None,
                stdout: "test `"@ + name + "` did not run in any binary after the rebuild"@,
            })
        }),
{
}

/// A place that is found stands right after the first `panicked at `, in the same line, with a colon
/// behind it and one in it; without a `panicked at ` there is none.
pub proof fn law_found_place_stands_in_the_report(stdout: Seq<char>, i: int)
    ensures
        !occurs(stdout, "panicked at "@) ==> location_in(stdout) is None,
        first_at(stdout, "panicked at "@, i) && location_in(stdout) is Some ==> {
            let after = stdout.skip(i + "panicked at "@.len());
            let place = location_in(stdout)->0;
            &&& place.is_prefix_of(after)
            &&& place.len() < after.len() && after[place.len() as int] == ':'
            &&& place.contains(':')
            &&& !place.contains('\n')
        },
{
    if first_at(stdout, "panicked at "@, i) && location_in(stdout) is Some {
        lemma_after_first(stdout, "panicked at "@, i);
        let after = stdout.skip(i + "panicked at "@.len());
        lemma_find_char(after, '\n');
        let end_of_line = find_char(after, '\n');
        let line = after.take(end_of_line);
        let whole = without_colons(line);
        lemma_without_colons(line);
        lemma_rfind_char(whole, ':');
        let place = location_in(stdout)->0;
        assert(place =~= after.subrange(0, place.len() as int));
        assert(whole[place.len() as int] == after[place.len() as int]);
        assert forall|k: int| 0 <= k < place.len() implies place[k] != '\n' by {
            assert(place[k] == after[k]);
        }
    }
}

proof fn lemma_without_colons(s: Seq<char>)
    ensures
        without_colons(s).len() <= s.len(),
        without_colons(s) == s.take(without_colons(s).len() as int),
    decreases s.len(),
{
    if s.len() > 0 && s.last() == ':' {
        lemma_without_colons(s.drop_last());
        let n = without_colons(s).len() as int;
        assert(s.drop_last().take(n) =~= s.take(n));
    } else {
        assert(s.take(s.len() as int) =~= s);
    }
}

/// A message is read member by member: each of its parts is what the JSON object holds under that
/// key, and nothing where the object holds nothing of the kind.
pub proof fn law_message_is_read_by_its_keys(value: serde_json::Value, found: serde_json::Value)
    ensures
        ({
            let m = message_of(value);
            &&& member_of(value, "type"@) == Some(found) ==> m.kind == text_of(found)
            &&& member_of(value, "event"@) == Some(found) ==> m.event == text_of(found)
            &&& member_of(value, "name"@) == Some(found) ==> m.name == text_of(found)
            &&& member_of(value, "stdout"@) == Some(found) ==> m.stdout == text_of(found)
            &&& member_of(value, "test_count"@) == Some(found) ==> m.test_count == count_of(found)
            &&& member_of(value, "exec_time"@) == Some(found) ==> m.exec_time == double_bits_of(
                found,
            )
            &&& member_of(value, "type"@) is None ==> m.kind is None
            &&& member_of(value, "event"@) is None ==> m.event is None
            &&& member_of(value, "name"@) is None ==> m.name is None
            &&& member_of(value, "stdout"@) is None ==> m.stdout is None
            &&& member_of(value, "test_count"@) is None ==> m.test_count is None
            &&& member_of(value, "exec_time"@) is None ==> m.exec_time is None
        }),
{
}

/// Every test binary is asked for JSON and for the time of each test. A run hands it every harness
/// argument in order, and a rerun asks for exactly one test, by its name.
pub proof fn law_test_binary_is_asked_for_its_tests(harness_args: Seq<Seq<char>>, name: Seq<char>)
    ensures
        ({
            let flags = seq!["--format"@, "json"@, "-Z"@, "unstable-options"@, "--report-time"@];
            &&& test_args_of(harness_args).take(5) == flags
            &&& test_args_of(harness_args).skip(5) == harness_args
            &&& rerun_args_of(name).take(5) == flags
            &&& rerun_args_of(name).skip(5) == seq!["--exact"@, name]
        }),
{
    let flags = seq!["--format"@, "json"@, "-Z"@, "unstable-options"@, "--report-time"@];
    assert(test_args_of(harness_args).take(5) =~= flags);
    assert(test_args_of(harness_args).skip(5) =~= harness_args);
    assert(rerun_args_of(name).take(5) =~= flags);
    assert(rerun_args_of(name).skip(5) =~= seq!["--exact"@, name]);
}

} // verus!
