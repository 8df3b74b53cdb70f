//! Everything the view accumulates across frames.

use crate::events::{
    Event, EventView, FailedTest, FailedTestView, Outcome, OutcomeView, Took, Warning, WarningView,
};
use crate::names::{table_of, Names};
use crate::stdout::{tail_of, tail_scroll};
use crate::text::{lines_of, same_text};
use vstd::hash_set::StringHashSet;
use vstd::prelude::*;

verus! {

/// What's being built: identity, disk footprint, per-crate versions.
pub struct Project {
    pub name: String,
    pub target_dir: Option<String>,
    pub before_size: u64,
    pub versions: Names,
    pub names: Vec<(String, String)>,
    pub compiled: StringHashSet,
    pub grew_by: u64,
}

/// A [`Project`] as a mathematical value.
#[verifier::ext_equal]
pub struct ProjectView {
    pub name: Seq<char>,
    pub target_dir: Option<Seq<char>>,
    pub before_size: u64,
    pub versions: Map<Seq<char>, Seq<char>>,
    pub names: Seq<(Seq<char>, Seq<char>)>,
    pub compiled: Set<Seq<char>>,
    pub grew_by: u64,
}

impl View for Project {
    type V = ProjectView;

    open spec fn view(&self) -> ProjectView {
        ProjectView {
            name: self.name@,
            target_dir: self.target_dir.deep_view(),
            before_size: self.before_size,
            versions: self.versions@,
            names: self.names.deep_view(),
            compiled: self.compiled@,
            grew_by: self.grew_by,
        }
    }
}

/// A crate that is being compiled, or a test that is running.
pub struct Running {
    pub name: String,
    /// When it started, in nanoseconds on the view's clock.
    pub started: u64,
    /// Running its build script right now? Always false for tests.
    pub script: bool,
}

/// A [`Running`] as a mathematical value.
pub struct RunningView {
    pub name: Seq<char>,
    pub started: u64,
    pub script: bool,
}

impl DeepView for Running {
    type V = RunningView;

    open spec fn deep_view(&self) -> RunningView {
        RunningView { name: self.name@, started: self.started, script: self.script }
    }
}

/// A crate that has been compiled, or a test that has passed.
pub struct Finished {
    pub name: String,
    pub took: Took,
}

/// A [`Finished`] as a mathematical value.
pub struct FinishedView {
    pub name: Seq<char>,
    pub took: Took,
}

impl DeepView for Finished {
    type V = FinishedView;

    open spec fn deep_view(&self) -> FinishedView {
        FinishedView { name: self.name@, took: self.took }
    }
}

/// The live progress bar / building-done lists.
pub struct Progress {
    pub total: usize,
    pub seen: usize,
    pub building: Vec<Running>,
    pub done: Vec<Finished>,
    /// Flips once the compile phase hands off to running the compiled tests, at which point
    /// "Compiling"/"Compiled" become "Running"/"Tests" and the progress bar restarts at 0.
    pub testing: bool,
}

/// A [`Progress`] as a mathematical value.
#[verifier::ext_equal]
pub struct ProgressView {
    pub total: usize,
    pub seen: usize,
    pub building: Seq<RunningView>,
    pub done: Seq<FinishedView>,
    pub testing: bool,
}

impl View for Progress {
    type V = ProgressView;

    open spec fn view(&self) -> ProgressView {
        ProgressView {
            total: self.total,
            seen: self.seen,
            building: self.building.deep_view(),
            done: self.done.deep_view(),
            testing: self.testing,
        }
    }
}

/// The warning panel shown after a build with warnings settles.
pub struct Warnings {
    pub items: Vec<Warning>,
    pub selected: usize,
    pub inspecting: bool,
}

/// [`Warnings`] as a mathematical value.
#[verifier::ext_equal]
pub struct WarningsView {
    pub items: Seq<WarningView>,
    pub selected: usize,
    pub inspecting: bool,
}

impl View for Warnings {
    type V = WarningsView;

    open spec fn view(&self) -> WarningsView {
        WarningsView {
            items: self.items.deep_view(),
            selected: self.selected,
            inspecting: self.inspecting,
        }
    }
}

/// The failed-test accordion: every failure stays listed, one is picked and can be expanded.
pub struct FailedTests {
    pub items: Vec<FailedTest>,
    pub selected: usize,
    pub expanded: Vec<bool>,
    /// How many lines of the selected test's stdout are scrolled past, so a panic's full output
    /// stays reachable instead of being clipped by the terminal.
    pub stdout_scroll: usize,
}

/// [`FailedTests`] as a mathematical value.
#[verifier::ext_equal]
pub struct FailedTestsView {
    pub items: Seq<FailedTestView>,
    pub selected: usize,
    pub expanded: Seq<bool>,
    pub stdout_scroll: usize,
}

impl View for FailedTests {
    type V = FailedTestsView;

    open spec fn view(&self) -> FailedTestsView {
        FailedTestsView {
            items: self.items.deep_view(),
            selected: self.selected,
            expanded: self.expanded@,
            stdout_scroll: self.stdout_scroll,
        }
    }
}

/// Everything the view accumulates across frames.
pub struct State {
    pub project: Project,
    pub progress: Progress,
    pub warnings: Warnings,
    pub failed: FailedTests,
    pub errors: Vec<String>,
    pub build_ok: Option<bool>,
    pub run_target: Option<String>,
    /// Frozen the instant `Done` arrives, so the clock stops for real instead of ticking away
    /// while the user browses failed tests afterward. Nanoseconds.
    pub final_elapsed: Option<u64>,
}

/// A [`State`] as a mathematical value.
#[verifier::ext_equal]
pub struct StateView {
    pub project: ProjectView,
    pub progress: ProgressView,
    pub warnings: WarningsView,
    pub failed: FailedTestsView,
    pub errors: Seq<Seq<char>>,
    pub build_ok: Option<bool>,
    pub run_target: Option<Seq<char>>,
    pub final_elapsed: Option<u64>,
}

impl View for State {
    type V = StateView;

    open spec fn view(&self) -> StateView {
        StateView {
            project: self.project@,
            progress: self.progress@,
            warnings: self.warnings@,
            failed: self.failed@,
            errors: self.errors.deep_view(),
            build_ok: self.build_ok,
            run_target: self.run_target.deep_view(),
            final_elapsed: self.final_elapsed,
        }
    }
}

/// `selected` is an index into a list of `len` items, zero where the list is empty.
pub open spec fn selects(selected: usize, len: nat) -> bool {
    selected < len || (selected == 0 && len == 0)
}

/// What is selected is there, and every failed test is either expanded or not.
pub open spec fn well_formed(s: StateView) -> bool {
    &&& selects(s.warnings.selected, s.warnings.items.len())
    &&& selects(s.failed.selected, s.failed.items.len())
    &&& s.failed.expanded.len() == s.failed.items.len()
}

/// The state before anything is known.
pub open spec fn initial() -> StateView {
    StateView {
        project: ProjectView {
            name: seq![],
            target_dir: None,
            before_size: 0,
            versions: Map::empty(),
            names: seq![],
            compiled: Set::empty(),
            grew_by: 0,
        },
        progress: ProgressView {
            total: 0,
            seen: 0,
            building: seq![],
            done: seq![],
            testing: false,
        },
        warnings: WarningsView { items: seq![], selected: 0, inspecting: false },
        failed: FailedTestsView { items: seq![], selected: 0, expanded: seq![], stdout_scroll: 0 },
        errors: seq![],
        build_ok: None,
        run_target: None,
        final_elapsed: None,
    }
}

// ---- progress ----

/// The index of the first running entry with this name, or the number of entries.
pub open spec fn running_at(building: Seq<RunningView>, name: Seq<char>) -> int
    decreases building.len(),
{
    if building.len() == 0 || building[0].name == name {
        0
    } else {
        1 + running_at(building.skip(1), name)
    }
}

/// An entry for `name` is running.
pub open spec fn is_running(building: Seq<RunningView>, name: Seq<char>) -> bool {
    running_at(building, name) < building.len()
}

/// `name` has started; one that is running already goes on.
pub open spec fn with_started(p: ProgressView, name: Seq<char>, now: u64) -> ProgressView {
    if is_running(p.building, name) {
        p
    } else {
        ProgressView {
            building: p.building.push(RunningView { name, started: now, script: false }),
            ..p
        }
    }
}

/// The build script of `name` runs, or does not any more.
pub open spec fn with_script(p: ProgressView, name: Seq<char>, script: bool) -> ProgressView {
    if is_running(p.building, name) {
        let at = running_at(p.building, name);
        ProgressView {
            building: p.building.update(at, RunningView { script, ..p.building[at] }),
            ..p
        }
    } else {
        p
    }
}

/// `name` does not run any more.
pub open spec fn without_running(p: ProgressView, name: Seq<char>) -> ProgressView {
    if is_running(p.building, name) {
        ProgressView { building: p.building.remove(running_at(p.building, name)), ..p }
    } else {
        p
    }
}

/// `a - b`, zero where that is less.
pub open spec fn minus(a: u64, b: u64) -> u64 {
    if a >= b {
        (a - b) as u64
    } else {
        0
    }
}

/// How long `name` has been running; no time at all where it is not.
pub open spec fn running_time(p: ProgressView, name: Seq<char>, now: u64) -> Took {
    if is_running(p.building, name) {
        Took::Nanos(minus(now, p.building[running_at(p.building, name)].started))
    } else {
        Took::Nanos(0)
    }
}

/// `name` is done.
pub open spec fn with_done(p: ProgressView, name: Seq<char>, took: Took) -> ProgressView {
    ProgressView { done: p.done.push(FinishedView { name, took }), ..p }
}

/// One more unit has been seen.
pub open spec fn with_one_more_seen(p: ProgressView) -> ProgressView {
    ProgressView { seen: (p.seen + 1) as usize, ..p }
}

proof fn lemma_running_at(building: Seq<RunningView>, name: Seq<char>)
    ensures
        0 <= running_at(building, name) <= building.len(),
        is_running(building, name) ==> building[running_at(building, name)].name == name,
        forall|i: int| 0 <= i < running_at(building, name) ==> building[i].name != name,
    decreases building.len(),
{
    if building.len() > 0 && building[0].name != name {
        let rest = building.skip(1);
        lemma_running_at(rest, name);
        assert forall|i: int| 0 <= i < running_at(building, name) implies building[i].name
            != name by {
            if i > 0 {
                assert(rest[i - 1] == building[i]);
            }
        }
    }
}

impl Progress {
    fn position(&self, name: &str) -> (r: Option<usize>)
        ensures
            r is Some <==> is_running(self@.building, name@),
            r matches Some(at) ==> at == running_at(self@.building, name@),
    {
        let ghost all = self.building.deep_view();
        proof {
            lemma_running_at(all, name@);
        }
        let mut i: usize = 0;
        while i < self.building.len()
            invariant
                i <= self.building.len(),
                all == self.building.deep_view(),
                forall|k: int| 0 <= k < i ==> all[k].name != name@,
                0 <= running_at(all, name@) <= all.len(),
                is_running(all, name@) ==> all[running_at(all, name@)].name == name@,
                forall|k: int| 0 <= k < running_at(all, name@) ==> all[k].name != name@,
            decreases self.building.len() - i,
        {
            assert(all[i as int].name == self.building[i as int].name@);
            if same_text(self.building[i].name.as_str(), name) {
                return Some(i);
            }
            i = i + 1;
        }
        None
    }

    fn start(&mut self, name: String, now: u64)
        ensures
            final(self)@ == with_started(old(self)@, name@, now),
    {
        if self.position(name.as_str()).is_none() {
            self.building.push(Running { name, started: now, script: false });
            assert(self@ =~= with_started(old(self)@, name@, now));
        }
    }

    fn set_script(&mut self, name: &str, script: bool)
        ensures
            final(self)@ == with_script(old(self)@, name@, script),
    {
        if let Some(at) = self.position(name) {
            let ghost before = self.building.deep_view();
            self.building[at].script = script;
            proof {
                let changed = RunningView { script, ..before[at as int] };
                assert(self.building.deep_view() =~= before.update(at as int, changed));
            }
        }
    }

    /// Takes `name` off the running entries, and hands out how long it ran.
    fn stop(&mut self, name: &str, now: u64) -> (took: Took)
        ensures
            final(self)@ == without_running(old(self)@, name@),
            took == running_time(old(self)@, name@, now),
    {
        match self.position(name) {
            Some(at) => {
                let ghost before = self.building.deep_view();
                let entry = self.building.remove(at);
                assert(self.building.deep_view() =~= before.remove(at as int));
                Took::Nanos(now.saturating_sub(entry.started))
            },
            None => Took::Nanos(0),
        }
    }

    fn finish(&mut self, name: String, took: Took)
        ensures
            final(self)@ == with_done(old(self)@, name@, took),
    {
        self.done.push(Finished { name, took });
        assert(self@ =~= with_done(old(self)@, name@, took));
    }
}

// ---- failed tests ----

/// The index of the first failed test with this name, or the number of failed tests.
pub open spec fn failed_at(items: Seq<FailedTestView>, name: Seq<char>) -> int
    decreases items.len(),
{
    if items.len() == 0 || items[0].name == name {
        0
    } else {
        1 + failed_at(items.skip(1), name)
    }
}

/// `name` is among the failed tests.
pub open spec fn has_failed(items: Seq<FailedTestView>, name: Seq<char>) -> bool {
    failed_at(items, name) < items.len()
}

/// The scroll position that shows the tail of the failed test at `i`; the top where there is none.
pub open spec fn tail_at(items: Seq<FailedTestView>, i: int) -> usize {
    if 0 <= i < items.len() {
        tail_of(items[i].stdout) as usize
    } else {
        0
    }
}

/// One more test has failed. It comes last, and is not expanded.
pub open spec fn with_failed(f: FailedTestsView, item: FailedTestView) -> FailedTestsView {
    FailedTestsView { items: f.items.push(item), expanded: f.expanded.push(false), ..f }
}

/// The failed test at `at` has failed again.
pub open spec fn with_failed_again(
    f: FailedTestsView,
    at: int,
    item: FailedTestView,
) -> FailedTestsView {
    let items = f.items.update(at, item);
    FailedTestsView {
        items,
        stdout_scroll: if at == f.selected {
            tail_at(items, at)
        } else {
            f.stdout_scroll
        },
        ..f
    }
}

/// The failed test at `at` leaves the list. The one that was selected stays selected; where it was
/// that one, the next is, or the one before where there is no next.
pub open spec fn without_failed(f: FailedTestsView, at: int) -> FailedTestsView {
    let items = f.items.remove(at);
    let selected = if at < f.selected || (f.selected == items.len() && f.selected > 0) {
        (f.selected - 1) as usize
    } else {
        f.selected
    };
    FailedTestsView {
        items,
        expanded: f.expanded.remove(at),
        selected,
        stdout_scroll: if at == f.selected {
            tail_at(items, selected as int)
        } else {
            f.stdout_scroll
        },
    }
}

proof fn lemma_failed_at(items: Seq<FailedTestView>, name: Seq<char>)
    ensures
        0 <= failed_at(items, name) <= items.len(),
        has_failed(items, name) ==> items[failed_at(items, name)].name == name,
        forall|i: int| 0 <= i < failed_at(items, name) ==> items[i].name != name,
    decreases items.len(),
{
    if items.len() > 0 && items[0].name != name {
        let rest = items.skip(1);
        lemma_failed_at(rest, name);
        assert forall|i: int| 0 <= i < failed_at(items, name) implies items[i].name != name by {
            if i > 0 {
                assert(rest[i - 1] == items[i]);
            }
        }
    }
}

impl FailedTests {
    fn position(&self, name: &str) -> (r: Option<usize>)
        ensures
            r is Some <==> has_failed(self@.items, name@),
            r matches Some(at) ==> at == failed_at(self@.items, name@),
    {
        let ghost all = self.items.deep_view();
        proof {
            lemma_failed_at(all, name@);
        }
        let mut i: usize = 0;
        while i < self.items.len()
            invariant
                i <= self.items.len(),
                all == self.items.deep_view(),
                forall|k: int| 0 <= k < i ==> all[k].name != name@,
                0 <= failed_at(all, name@) <= all.len(),
                has_failed(all, name@) ==> all[failed_at(all, name@)].name == name@,
                forall|k: int| 0 <= k < failed_at(all, name@) ==> all[k].name != name@,
            decreases self.items.len() - i,
        {
            assert(all[i as int].name == self.items[i as int].name@);
            if same_text(self.items[i].name.as_str(), name) {
                return Some(i);
            }
            i = i + 1;
        }
        None
    }

    /// The scroll position that shows the tail of the selected test.
    pub fn selected_tail(&self) -> (r: usize)
        ensures
            r == tail_at(self@.items, self@.selected as int),
    {
        assert(self@.items.len() == self.items.len());
        if self.selected < self.items.len() {
            assert(self@.items[self.selected as int].stdout == self.items[self.selected as int].stdout@);
            tail_scroll(self.items[self.selected].stdout.as_str())
        } else {
            0
        }
    }

    fn add_failure(&mut self, item: FailedTest)
        ensures
            final(self)@ == with_failed(old(self)@, item.deep_view()),
    {
        self.items.push(item);
        self.expanded.push(false);
        assert(self@ =~= with_failed(old(self)@, item.deep_view()));
    }

    fn replace(&mut self, at: usize, item: FailedTest)
        requires
            at < old(self)@.items.len(),
        ensures
            final(self)@ == with_failed_again(old(self)@, at as int, item.deep_view()),
    {
        let ghost before = self@;
        self.items[at] = item;
        assert(self.items.deep_view() =~= before.items.update(at as int, item.deep_view()));
        if at == self.selected {
            self.stdout_scroll = self.selected_tail();
        }
    }

    fn remove(&mut self, at: usize)
        requires
            at < old(self)@.items.len(),
            old(self)@.expanded.len() == old(self)@.items.len(),
        ensures
            final(self)@ == without_failed(old(self)@, at as int),
    {
        let ghost before = self@;
        let was_selected = at == self.selected;
        self.items.remove(at);
        self.expanded.remove(at);
        assert(self.items.deep_view() =~= before.items.remove(at as int));
        assert(self@.items.len() == self.items.len());
        if at < self.selected || (self.selected == self.items.len() && self.selected > 0) {
            self.selected = self.selected - 1;
        }
        if was_selected {
            self.stdout_scroll = self.selected_tail();
        }
    }
}

// ---- events ----

/// The counters have room for what the event adds to them.
pub open spec fn has_room(s: StateView, event: EventView) -> bool {
    match event {
        EventView::ScriptExecuted(_) => s.progress.seen < usize::MAX,
        EventView::Artifact { .. } => s.progress.seen < usize::MAX,
        EventView::TestFinished { .. } => s.progress.seen < usize::MAX,
        EventView::SuiteStarted { total } => !s.progress.testing || s.progress.total + total
            <= usize::MAX,
        _ => true,
    }
}

/// The progress once the compile phase has handed off to running the tests: it starts over.
pub open spec fn handed_off(p: ProgressView) -> ProgressView {
    if p.testing {
        p
    } else {
        ProgressView { total: 0, seen: 0, building: seq![], done: seq![], testing: true }
    }
}

/// A finished test in the progress.
pub open spec fn progress_finished(
    p: ProgressView,
    name: Seq<char>,
    took: Took,
    outcome: OutcomeView,
) -> ProgressView {
    let counted = without_running(with_one_more_seen(p), name);
    if outcome is Passed {
        with_done(counted, name, took)
    } else {
        counted
    }
}

/// An artifact in the progress: a crate that was really compiled is done.
pub open spec fn progress_artifact(
    p: ProgressView,
    name: Seq<char>,
    fresh: bool,
    is_real: bool,
    now: u64,
) -> ProgressView {
    let counted = with_one_more_seen(p);
    if !fresh && is_real {
        with_done(without_running(counted, name), name, running_time(counted, name, now))
    } else {
        counted
    }
}

/// The state after the rerun of a failed test: one that does not fail any more leaves the list.
pub open spec fn after_retry(
    s: StateView,
    name: Seq<char>,
    took: Took,
    outcome: OutcomeView,
) -> StateView {
    let at = failed_at(s.failed.items, name);
    if !has_failed(s.failed.items, name) {
        s
    } else {
        match outcome {
            OutcomeView::Passed => StateView {
                failed: without_failed(s.failed, at),
                progress: with_done(s.progress, name, took),
                ..s
            },
            OutcomeView::Ignored => StateView { failed: without_failed(s.failed, at), ..s },
            OutcomeView::Failed { location, stdout } => StateView {
                failed: with_failed_again(
                    s.failed,
                    at,
                    FailedTestView { name, took, location, stdout },
                ),
                ..s
            },
        }
    }
}

/// The first of several, where there is one.
pub open spec fn first_of(paths: Seq<Seq<char>>) -> Option<Seq<char>> {
    if paths.len() > 0 {
        Some(paths[0])
    } else {
        None
    }
}

/// The state after an event that arrives at `now`, in nanoseconds since the start. `disk` is the
/// size of the target directory at that time.
pub open spec fn applied(s: StateView, event: EventView, now: u64, disk: u64) -> StateView {
    match event {
        EventView::Ready { project, target_dir, total, versions, names } => StateView {
            project: ProjectView {
                name: project,
                target_dir: Some(target_dir),
                before_size: disk,
                versions: table_of(versions),
                names,
                ..s.project
            },
            progress: ProgressView { total, ..s.progress },
            ..s
        },
        EventView::Total(total) => StateView {
            progress: ProgressView { total, ..s.progress },
            ..s
        },
        EventView::Started(name) => StateView {
            progress: with_started(s.progress, name, now),
            ..s
        },
        EventView::ScriptRunning(name) => StateView {
            progress: with_script(s.progress, name, true),
            ..s
        },
        EventView::ScriptExecuted(name) => StateView {
            progress: with_script(with_one_more_seen(s.progress), name, false),
            ..s
        },
        EventView::Artifact { id, name, fresh, real: is_real } => StateView {
            project: if fresh {
                s.project
            } else {
                ProjectView { compiled: s.project.compiled.insert(id), ..s.project }
            },
            progress: progress_artifact(s.progress, name, fresh, is_real, now),
            ..s
        },
        EventView::Warning(warning) => StateView {
            warnings: WarningsView { items: s.warnings.items.push(warning), ..s.warnings },
            ..s
        },
        EventView::Error(text) => StateView { errors: s.errors.push(text), ..s },
        EventView::Executables(paths) => StateView { run_target: first_of(paths), ..s },
        EventView::SuiteStarted { total } => {
            let p = handed_off(s.progress);
            StateView { progress: ProgressView { total: (p.total + total) as usize, ..p }, ..s }
        },
        EventView::TestStarted(name) => StateView {
            progress: with_started(s.progress, name, now),
            ..s
        },
        EventView::TestFinished { name, took, outcome } => StateView {
            progress: progress_finished(s.progress, name, took, outcome),
            failed: match outcome {
                OutcomeView::Failed { location, stdout } => with_failed(
                    s.failed,
                    FailedTestView { name, took, location, stdout },
                ),
                _ => s.failed,
            },
            ..s
        },
        EventView::RetryFinished { name, took, outcome } => after_retry(s, name, took, outcome),
        EventView::Done(ok) => StateView {
            build_ok: Some(ok),
            final_elapsed: Some(now),
            project: ProjectView {
                grew_by: match s.project.target_dir {
                    Some(_) => minus(disk, s.project.before_size),
                    None => 0,
                },
                ..s.project
            },
            ..s
        },
    }
}

fn into_first(paths: Vec<String>) -> (r: Option<String>)
    ensures
        r.deep_view() == first_of(paths.deep_view()),
{
    let mut paths = paths;
    assert(paths.deep_view().len() == paths.len());
    if paths.len() > 0 {
        Some(paths.remove(0))
    } else {
        None
    }
}

impl State {
    /// The state before anything is known.
    pub fn new() -> (r: State)
        ensures
            r@ == initial(),
            well_formed(r@),
    {
        let r = State {
            project: Project {
                name: String::new(),
                target_dir: None,
                before_size: 0,
                versions: Names::new(),
                names: Vec::new(),
                compiled: StringHashSet::new(),
                grew_by: 0,
            },
            progress: Progress {
                total: 0,
                seen: 0,
                building: Vec::new(),
                done: Vec::new(),
                testing: false,
            },
            warnings: Warnings { items: Vec::new(), selected: 0, inspecting: false },
            failed: FailedTests {
                items: Vec::new(),
                selected: 0,
                expanded: Vec::new(),
                stdout_scroll: 0,
            },
            errors: Vec::new(),
            build_ok: None,
            run_target: None,
            final_elapsed: None,
        };
        proof {
            assert(r@.project =~= initial().project);
            assert(r@.progress =~= initial().progress);
            assert(r@.warnings =~= initial().warnings);
            assert(r@.failed =~= initial().failed);
            assert(r@.errors =~= initial().errors);
        }
        r
    }

    /// Whether the counters have room for what an event adds to them.
    pub fn has_room_for(&self, event: &Event) -> (r: bool)
        ensures
            r == has_room(self@, event.deep_view()),
    {
        match event {
            Event::ScriptExecuted(_) => self.progress.seen < usize::MAX,
            Event::Artifact { .. } => self.progress.seen < usize::MAX,
            Event::TestFinished { .. } => self.progress.seen < usize::MAX,
            Event::SuiteStarted { total } => !self.progress.testing || *total <= usize::MAX
                - self.progress.total,
            _ => true,
        }
    }

    /// Takes in one event that arrived at `now`, in nanoseconds since the start. `disk` is the size
    /// of the target directory, which matters to `Ready` and `Done` alone.
    pub fn apply(&mut self, event: Event, now: u64, disk: u64)
        requires
            well_formed(old(self)@),
            has_room(old(self)@, event.deep_view()),
        ensures
            final(self)@ == applied(old(self)@, event.deep_view(), now, disk),
            well_formed(final(self)@),
    {
        let ghost before = self@;
        let ghost what = event.deep_view();
        match event {
            Event::Ready { project, target_dir, total, versions, names } => {
                self.project.name = project;
                self.project.before_size = disk;
                self.project.target_dir = Some(target_dir);
                self.progress.total = total;
                self.project.versions = Names::from_pairs(&versions);
                self.project.names = names;
            },
            Event::Total(total) => {
                self.progress.total = total;
            },
            Event::Started(name) => {
                self.progress.start(name, now);
            },
            Event::ScriptRunning(name) => {
                self.progress.set_script(name.as_str(), true);
            },
            Event::ScriptExecuted(name) => {
                self.progress.seen = self.progress.seen + 1;
                self.progress.set_script(name.as_str(), false);
            },
            Event::Artifact { id, name, fresh, real: is_real } => {
                self.progress.seen = self.progress.seen + 1;
                if !fresh {
                    self.project.compiled.insert(id);
                    if is_real {
                        let took = self.progress.stop(name.as_str(), now);
                        self.progress.finish(name, took);
                    }
                }
            },
            Event::Warning(warning) => {
                self.warnings.items.push(warning);
                assert(self@.warnings.items =~= before.warnings.items.push(warning.deep_view()));
            },
            Event::Error(text) => {
                self.errors.push(text);
                assert(self@.errors =~= before.errors.push(text@));
            },
            Event::Executables(paths) => {
                self.run_target = into_first(paths);
            },
            Event::SuiteStarted { total } => {
                if !self.progress.testing {
                    self.progress.testing = true;
                    self.progress.seen = 0;
                    self.progress.total = 0;
                    self.progress.done.clear();
                    self.progress.building.clear();
                    assert(self.progress@ =~= handed_off(before.progress));
                }
                self.progress.total = self.progress.total + total;
            },
            Event::TestStarted(name) => {
                self.progress.start(name, now);
            },
            Event::TestFinished { name, took, outcome } => {
                self.progress.seen = self.progress.seen + 1;
                self.progress.stop(name.as_str(), now);
                match outcome {
                    Outcome::Passed => {
                        self.progress.finish(name, took);
                    },
                    Outcome::Ignored => {},
                    Outcome::Failed { location, stdout } => {
                        self.failed.add_failure(FailedTest { name, took, location, stdout });
                    },
                }
            },
            Event::RetryFinished { name, took, outcome } => {
                if let Some(at) = self.failed.position(name.as_str()) {
                    match outcome {
                        Outcome::Passed => {
                            self.failed.remove(at);
                            self.progress.finish(name, took);
                        },
                        Outcome::Ignored => {
                            self.failed.remove(at);
                        },
                        Outcome::Failed { location, stdout } => {
                            self.failed.replace(at, FailedTest { name, took, location, stdout });
                        },
                    }
                }
            },
            Event::Done(ok) => {
                self.build_ok = Some(ok);
                self.final_elapsed = Some(now);
                self.project.grew_by = match &self.project.target_dir {
                    Some(_) => disk.saturating_sub(self.project.before_size),
                    None => 0,
                };
            },
        }
        proof {
            let after = applied(before, what, now, disk);
            assert(self@.project =~= after.project);
            assert(self@.progress =~= after.progress);
            assert(self@.warnings =~= after.warnings);
            assert(self@.failed =~= after.failed);
            assert(self@.errors =~= after.errors);
            assert(self@ =~= after);
        }
    }
}

// ---- what holds of every state ----

/// Every event keeps what is selected in range.
pub proof fn law_events_keep_selection_in_range(
    s: StateView,
    event: EventView,
    now: u64,
    disk: u64,
)
    requires
        well_formed(s),
    ensures
        well_formed(applied(s, event, now, disk)),
{
    if let EventView::RetryFinished { name, .. } = event {
        lemma_failed_at(s.failed.items, name);
    }
}

/// No name is listed twice among the running entries.
pub open spec fn distinct(building: Seq<RunningView>) -> bool {
    forall|i: int, j: int|
        0 <= i < j < building.len() ==> (#[trigger] building[i]).name != (
        #[trigger] building[j]).name
}

/// No event lists a running crate or test twice.
pub proof fn law_running_names_stay_distinct(s: StateView, event: EventView, now: u64, disk: u64)
    requires
        distinct(s.progress.building),
    ensures
        distinct(applied(s, event, now, disk).progress.building),
{
    let before = s.progress.building;
    match event {
        EventView::Started(name) | EventView::TestStarted(name) => {
            lemma_running_at(before, name);
        },
        EventView::ScriptRunning(name) | EventView::ScriptExecuted(name) => {
            lemma_running_at(before, name);
        },
        EventView::Artifact { name, .. } | EventView::TestFinished { name, .. } => {
            lemma_running_at(before, name);
            if is_running(before, name) {
                let at = running_at(before, name);
                let after = before.remove(at);
                assert forall|i: int, j: int| 0 <= i < j < after.len() implies (
                #[trigger] after[i]).name != (#[trigger] after[j]).name by {
                    let i0 = if i < at {
                        i
                    } else {
                        i + 1
                    };
                    let j0 = if j < at {
                        j
                    } else {
                        j + 1
                    };
                    assert(after[i] == before[i0]);
                    assert(after[j] == before[j0]);
                }
            }
        },
        _ => {},
    }
}

/// Starting what is running already changes nothing.
pub proof fn law_starting_twice_is_starting_once(p: ProgressView, name: Seq<char>, now: u64, later: u64)
    ensures
        with_started(with_started(p, name, now), name, later) == with_started(p, name, now),
{
    lemma_running_at(p.building, name);
    let started = with_started(p, name, now).building;
    lemma_running_at(started, name);
    if !is_running(p.building, name) {
        assert(started[p.building.len() as int].name == name);
    }
}

/// Only a rerun takes a failed test off the list: every other event leaves the failed tests listed,
/// in order, and adds at most one at the end.
pub proof fn law_failures_stay_listed(s: StateView, event: EventView, now: u64, disk: u64)
    requires
        !(event is RetryFinished),
    ensures
        applied(s, event, now, disk).failed.items.len() <= s.failed.items.len() + 1,
        s.failed.items.is_prefix_of(applied(s, event, now, disk).failed.items),
{
}

/// The rerun of a test leaves every failed test with another name listed as it was.
pub proof fn law_retry_leaves_the_others(
    s: StateView,
    name: Seq<char>,
    took: Took,
    outcome: OutcomeView,
    i: int,
)
    requires
        0 <= i < s.failed.items.len(),
        s.failed.items[i].name != name,
    ensures
        after_retry(s, name, took, outcome).failed.items.contains(s.failed.items[i]),
{
    lemma_failed_at(s.failed.items, name);
    let at = failed_at(s.failed.items, name);
    let after = after_retry(s, name, took, outcome).failed.items;
    if !has_failed(s.failed.items, name) || outcome is Failed || i < at {
        assert(after[i] == s.failed.items[i]);
    } else {
        assert(after[i - 1] == s.failed.items[i]);
    }
}

/// A failed test that passes when it runs again is not listed any more, where no other failed test
/// has its name.
pub proof fn law_passing_retry_clears_the_failure(s: StateView, name: Seq<char>, took: Took)
    requires
        forall|i: int, j: int|
            0 <= i < j < s.failed.items.len() ==> (#[trigger] s.failed.items[i]).name != (
            #[trigger] s.failed.items[j]).name,
    ensures
        !has_failed(after_retry(s, name, took, OutcomeView::Passed).failed.items, name),
{
    let before = s.failed.items;
    lemma_failed_at(before, name);
    let at = failed_at(before, name);
    let after = after_retry(s, name, took, OutcomeView::Passed).failed.items;
    lemma_failed_at(after, name);
    if has_failed(before, name) && has_failed(after, name) {
        let found = failed_at(after, name);
        let was = if found < at {
            found
        } else {
            found + 1
        };
        assert(after[found] == before[was]);
        if was < at {
            assert(before[was].name != before[at].name);
        } else {
            assert(before[at].name != before[was].name);
        }
    }
}

/// The clock stops when the build is over: only `Done` sets the final time.
pub proof fn law_only_done_stops_the_clock(s: StateView, event: EventView, now: u64, disk: u64)
    ensures
        applied(s, event, now, disk).final_elapsed == if event is Done {
            Some(now)
        } else {
            s.final_elapsed
        },
        applied(s, event, now, disk).build_ok == match event {
            EventView::Done(ok) => Some(ok),
            _ => s.build_ok,
        },
{
}

/// The totals of the test binaries add up, and the compile phase counts no more once the first of
/// them starts.
pub proof fn law_suite_totals_add_up(s: StateView, first: usize, second: usize, now: u64, disk: u64)
    requires
        !s.progress.testing,
        first + second <= usize::MAX,
    ensures
        ({
            let one = applied(s, EventView::SuiteStarted { total: first }, now, disk);
            let two = applied(one, EventView::SuiteStarted { total: second }, now, disk);
            &&& one.progress.total == first
            &&& one.progress.seen == 0
            &&& two.progress.total == first + second
            &&& two.progress.seen == 0
        }),
{
}

/// Every test that finishes is counted once, and comes to be done, failed or, where it was
/// ignored, neither.
pub proof fn law_finished_test_is_counted_once(
    s: StateView,
    name: Seq<char>,
    took: Took,
    outcome: OutcomeView,
    now: u64,
    disk: u64,
)
    requires
        s.progress.seen < usize::MAX,
    ensures
        ({
            let after = applied(s, EventView::TestFinished { name, took, outcome }, now, disk);
            &&& after.progress.seen == s.progress.seen + 1
            &&& after.progress.done.len() + after.failed.items.len() == s.progress.done.len()
                + s.failed.items.len() + if outcome is Ignored {
                0int
            } else {
                1int
            }
        }),
{
}

// ---- what a build, a run or a test run comes to ----

/// The state after several events, each with the time at which it arrived and the size of the target
/// directory then.
pub open spec fn after_events(s: StateView, events: Seq<(EventView, u64, u64)>) -> StateView
    decreases events.len(),
{
    if events.len() == 0 {
        s
    } else {
        let last = events.last();
        applied(after_events(s, events.drop_last()), last.0, last.1, last.2)
    }
}

/// The event says that the package `id` was really compiled, not found fresh.
pub open spec fn says_compiled(event: EventView, id: Seq<char>) -> bool {
    event matches EventView::Artifact { id: of, fresh, .. } && of == id && !fresh
}

/// The libs compiled are exactly the packages that some artifact was really compiled for: one that
/// was found fresh does not count, and none counts twice.
pub proof fn law_libs_compiled_are_those_not_fresh(
    events: Seq<(EventView, u64, u64)>,
    id: Seq<char>,
)
    ensures
        after_events(initial(), events).project.compiled.finite(),
        after_events(initial(), events).project.compiled.contains(id) <==> exists|i: int|
            0 <= i < events.len() && says_compiled((#[trigger] events[i]).0, id),
    decreases events.len(),
{
    if events.len() > 0 {
        let before = events.drop_last();
        law_libs_compiled_are_those_not_fresh(before, id);
        if exists|i: int| 0 <= i < before.len() && says_compiled((#[trigger] before[i]).0, id) {
            let i = choose|i: int|
                0 <= i < before.len() && says_compiled((#[trigger] before[i]).0, id);
            assert(events[i] == before[i]);
        }
        if exists|i: int| 0 <= i < events.len() && says_compiled((#[trigger] events[i]).0, id) {
            let i = choose|i: int|
                0 <= i < events.len() && says_compiled((#[trigger] events[i]).0, id);
            if i < before.len() {
                assert(before[i] == events[i]);
            }
        }
        assert(events[events.len() - 1] == events.last());
    }
}

/// Errors and warnings are kept in the order in which they are reported, the binary to run is the
/// first that is reported, and no other event touches them.
pub proof fn law_reports_are_kept_in_order(s: StateView, event: EventView, now: u64, disk: u64)
    ensures
        ({
            let t = applied(s, event, now, disk);
            &&& t.errors == match event {
                EventView::Error(text) => s.errors.push(text),
                _ => s.errors,
            }
            &&& t.warnings.items == match event {
                EventView::Warning(warning) => s.warnings.items.push(warning),
                _ => s.warnings.items,
            }
            &&& t.warnings.selected == s.warnings.selected
            &&& t.warnings.inspecting == s.warnings.inspecting
            &&& match event {
                EventView::Executables(paths) => {
                    &&& paths.len() > 0 ==> t.run_target == Some(paths[0])
                    &&& paths.len() == 0 ==> t.run_target is None
                },
                _ => t.run_target == s.run_target,
            }
        }),
{
}

/// What is being built is what `Ready` says, and the growth on disk is how much larger the target
/// directory is at the end than it was then.
pub proof fn law_growth_is_measured_from_ready_to_done(
    s: StateView,
    project: Seq<char>,
    target_dir: Seq<char>,
    total: usize,
    versions: Seq<(Seq<char>, Seq<char>)>,
    names: Seq<(Seq<char>, Seq<char>)>,
    between: Seq<(EventView, u64, u64)>,
    ok: bool,
    start: u64,
    end: u64,
    before: u64,
    after: u64,
)
    requires
        forall|i: int|
            0 <= i < between.len() ==> !((#[trigger] between[i]).0 is Ready) && !(between[i].0
                is Done),
    ensures
        ({
            let ready = applied(
                s,
                EventView::Ready { project, target_dir, total, versions, names },
                start,
                before,
            );
            let built = after_events(ready, between);
            let done = applied(built, EventView::Done(ok), end, after);
            &&& ready.progress.total == total
            &&& done.project.name == project
            &&& done.project.target_dir == Some(target_dir)
            &&& done.project.names == names
            &&& done.project.versions == table_of(versions)
            &&& done.project.before_size == before
            &&& after >= before ==> done.project.grew_by == after - before
            &&& after < before ==> done.project.grew_by == 0
            &&& done.build_ok == Some(ok)
            &&& done.final_elapsed == Some(end)
        }),
    decreases between.len(),
{
    if between.len() > 0 {
        let shorter = between.drop_last();
        assert forall|i: int| 0 <= i < shorter.len() implies !((#[trigger] shorter[i]).0 is Ready)
            && !(shorter[i].0 is Done) by {
            assert(shorter[i] == between[i]);
        }
        law_growth_is_measured_from_ready_to_done(
            s,
            project,
            target_dir,
            total,
            versions,
            names,
            shorter,
            ok,
            start,
            end,
            before,
            after,
        );
        assert(!(between[between.len() - 1].0 is Ready) && !(between[between.len() - 1].0 is Done));
        let ready = applied(
            s,
            EventView::Ready { project, target_dir, total, versions, names },
            start,
            before,
        );
        law_project_changes_on_ready_and_done_alone(
            after_events(ready, shorter),
            between.last().0,
            between.last().1,
            between.last().2,
        );
    }
}

/// No event but `Ready` and `Done` changes what is being built and how much it grew by, and without
/// a target directory nothing has grown.
pub proof fn law_project_changes_on_ready_and_done_alone(
    s: StateView,
    event: EventView,
    now: u64,
    disk: u64,
)
    ensures
        ({
            let t = applied(s, event, now, disk);
            &&& !(event is Ready) ==> {
                &&& t.project.name == s.project.name
                &&& t.project.target_dir == s.project.target_dir
                &&& t.project.before_size == s.project.before_size
                &&& t.project.versions == s.project.versions
                &&& t.project.names == s.project.names
            }
            &&& !(event is Done) ==> t.project.grew_by == s.project.grew_by
            &&& event is Done && s.project.target_dir is None ==> t.project.grew_by == 0
            &&& !(event is Artifact) ==> t.project.compiled == s.project.compiled
        }),
{
}

/// The counters: an artifact, an executed build script and a finished test are seen once each, the
/// total is what was last announced, the first test binary starts both over, and every test binary
/// adds its tests to the total.
pub proof fn law_counters_follow_the_events(s: StateView, event: EventView, now: u64, disk: u64)
    requires
        has_room(s, event),
    ensures
        ({
            let p = s.progress;
            let q = applied(s, event, now, disk).progress;
            &&& event is Artifact || event is ScriptExecuted || event is TestFinished ==> q.seen
                == p.seen + 1
            &&& event is SuiteStarted ==> q.seen == if p.testing {
                p.seen as int
            } else {
                0
            }
            &&& !(event is Artifact || event is ScriptExecuted || event is TestFinished || event
                is SuiteStarted) ==> q.seen == p.seen
            &&& match event {
                EventView::Ready { total, .. } => q.total == total,
                EventView::Total(total) => q.total == total,
                EventView::SuiteStarted { total } => q.total == total + if p.testing {
                    p.total as int
                } else {
                    0
                },
                _ => q.total == p.total,
            }
            &&& q.testing == (p.testing || event is SuiteStarted)
        }),
{
    if let EventView::RetryFinished { name, .. } = event {
        lemma_failed_at(s.failed.items, name);
    }
}

/// `at` is the index of the first running entry called `name`.
pub open spec fn runs_first_at(building: Seq<RunningView>, name: Seq<char>, at: int) -> bool {
    &&& 0 <= at < building.len()
    &&& building[at].name == name
    &&& forall|j: int| 0 <= j < at ==> (#[trigger] building[j]).name != name
}

/// No running entry is called `name`.
pub open spec fn runs_nowhere(building: Seq<RunningView>, name: Seq<char>) -> bool {
    forall|j: int| 0 <= j < building.len() ==> (#[trigger] building[j]).name != name
}

/// What starts is listed last, with the time of its start and no build script running; what runs
/// already is left alone.
pub proof fn law_what_starts_is_running(
    s: StateView,
    name: Seq<char>,
    now: u64,
    disk: u64,
    at: int,
)
    ensures
        ({
            let crate_started = applied(s, EventView::Started(name), now, disk).progress;
            let test_started = applied(s, EventView::TestStarted(name), now, disk).progress;
            &&& crate_started == test_started
            &&& crate_started.done == s.progress.done
            &&& runs_nowhere(s.progress.building, name) ==> crate_started.building
                == s.progress.building.push(RunningView { name, started: now, script: false })
            &&& runs_first_at(s.progress.building, name, at) ==> crate_started.building
                == s.progress.building
        }),
{
    lemma_running_at(s.progress.building, name);
}

/// A build script is marked as running from the moment it is about to until it has been executed,
/// on the crate it belongs to and on no other.
pub proof fn law_script_runs_until_executed(
    s: StateView,
    name: Seq<char>,
    now: u64,
    disk: u64,
    at: int,
)
    requires
        s.progress.seen < usize::MAX,
    ensures
        ({
            let before = s.progress.building;
            let running = applied(s, EventView::ScriptRunning(name), now, disk).progress;
            let executed = applied(s, EventView::ScriptExecuted(name), now, disk).progress;
            &&& running.done == s.progress.done
            &&& executed.done == s.progress.done
            &&& runs_nowhere(before, name) ==> running.building == before && executed.building
                == before
            &&& runs_first_at(before, name, at) ==> {
                &&& running.building == before.update(
                    at,
                    RunningView { name, started: before[at].started, script: true },
                )
                &&& executed.building == before.update(
                    at,
                    RunningView { name, started: before[at].started, script: false },
                )
            }
        }),
{
    lemma_running_at(s.progress.building, name);
}

/// A crate that is really compiled leaves the running entries and is done, after the time since it
/// started; one that was not seen to start is done after no time. What was found fresh, and a build
/// script, changes neither list.
pub proof fn law_compiled_crate_is_done(
    s: StateView,
    id: Seq<char>,
    name: Seq<char>,
    fresh: bool,
    is_real: bool,
    now: u64,
    disk: u64,
    at: int,
)
    requires
        s.progress.seen < usize::MAX,
    ensures
        ({
            let p = s.progress;
            let q = applied(
                s,
                EventView::Artifact { id, name, fresh, real: is_real },
                now,
                disk,
            ).progress;
            &&& fresh || !is_real ==> q.building == p.building && q.done == p.done
            &&& !fresh && is_real && runs_nowhere(p.building, name) ==> {
                &&& q.building == p.building
                &&& q.done == p.done.push(FinishedView { name, took: Took::Nanos(0) })
            }
            &&& !fresh && is_real && runs_first_at(p.building, name, at) ==> {
                &&& q.building == p.building.remove(at)
                &&& q.done.drop_last() == p.done
                &&& q.done.last().name == name
                &&& now >= p.building[at].started ==> q.done.last().took == Took::Nanos(
                    (now - p.building[at].started) as u64,
                )
                &&& now < p.building[at].started ==> q.done.last().took == Took::Nanos(0)
            }
        }),
{
    lemma_running_at(s.progress.building, name);
}

/// A finished test leaves the running entries, and comes to be where its outcome says: a passed one
/// among the done, a failed one at the end of the failed, collapsed, with what it said; an ignored
/// one in neither. The time is the one that was reported.
pub proof fn law_finished_test_goes_by_its_outcome(
    s: StateView,
    name: Seq<char>,
    took: Took,
    outcome: OutcomeView,
    now: u64,
    disk: u64,
    at: int,
)
    requires
        s.progress.seen < usize::MAX,
    ensures
        ({
            let t = applied(s, EventView::TestFinished { name, took, outcome }, now, disk);
            &&& runs_nowhere(s.progress.building, name) ==> t.progress.building
                == s.progress.building
            &&& runs_first_at(s.progress.building, name, at) ==> t.progress.building
                == s.progress.building.remove(at)
            &&& t.progress.done == if outcome is Passed {
                s.progress.done.push(FinishedView { name, took })
            } else {
                s.progress.done
            }
            &&& match outcome {
                OutcomeView::Failed { location, stdout } => {
                    &&& t.failed.items == s.failed.items.push(
                        FailedTestView { name, took, location, stdout },
                    )
                    &&& t.failed.expanded == s.failed.expanded.push(false)
                },
                _ => t.failed.items == s.failed.items && t.failed.expanded == s.failed.expanded,
            }
            &&& t.failed.selected == s.failed.selected
            &&& t.failed.stdout_scroll == s.failed.stdout_scroll
        }),
{
    lemma_running_at(s.progress.building, name);
}

/// Only what starts, is compiled or finishes, and the first test binary, which empties both,
/// changes the running and the done; only finished tests and reruns change the failed.
pub proof fn law_lists_change_on_their_own_events(s: StateView, event: EventView, now: u64, disk: u64)
    ensures
        ({
            let t = applied(s, event, now, disk);
            &&& event is SuiteStarted && !s.progress.testing ==> t.progress.building.len() == 0
                && t.progress.done.len() == 0
            &&& event is SuiteStarted && s.progress.testing ==> t.progress.building
                == s.progress.building && t.progress.done == s.progress.done
            &&& event is Ready || event is Total || event is Warning || event is Error || event
                is Executables || event is Done ==> t.progress.building == s.progress.building
                && t.progress.done == s.progress.done
            &&& event is RetryFinished ==> t.progress.building == s.progress.building
            &&& !(event is TestFinished || event is RetryFinished) ==> t.failed == s.failed
        }),
{
}

/// `at` is the index of the first failed test called `name`.
pub open spec fn failed_first_at(items: Seq<FailedTestView>, name: Seq<char>, at: int) -> bool {
    &&& 0 <= at < items.len()
    &&& items[at].name == name
    &&& forall|j: int| 0 <= j < at ==> (#[trigger] items[j]).name != name
}

/// A rerun that passes or is ignored takes its test off the failed list, and one that passes puts
/// it among the done; one that fails again stays where it is, with what it says now. Nothing is
/// changed by the rerun of a test that is not listed.
pub proof fn law_rerun_updates_its_own_test(
    s: StateView,
    name: Seq<char>,
    took: Took,
    outcome: OutcomeView,
    now: u64,
    disk: u64,
    at: int,
)
    requires
        well_formed(s),
    ensures
        ({
            let t = applied(s, EventView::RetryFinished { name, took, outcome }, now, disk);
            let f = s.failed;
            let g = t.failed;
            &&& (forall|j: int| 0 <= j < f.items.len() ==> (#[trigger] f.items[j]).name != name)
                ==> t == s
            &&& failed_first_at(f.items, name, at) ==> match outcome {
                OutcomeView::Failed { location, stdout } => {
                    &&& g.items == f.items.update(
                        at,
                        FailedTestView { name, took, location, stdout },
                    )
                    &&& g.expanded == f.expanded
                    &&& g.selected == f.selected
                    &&& t.progress == s.progress
                },
                _ => {
                    &&& g.items == f.items.remove(at)
                    &&& g.expanded == f.expanded.remove(at)
                    &&& t.progress.done == if outcome is Passed {
                        s.progress.done.push(FinishedView { name, took })
                    } else {
                        s.progress.done
                    }
                    &&& at != f.selected ==> g.items[g.selected as int]
                        == f.items[f.selected as int] && g.expanded[g.selected as int]
                        == f.expanded[f.selected as int]
                    &&& at == f.selected && at < f.items.len() - 1 ==> g.selected == at
                    &&& at == f.selected && at == f.items.len() - 1 && at > 0 ==> g.selected
                        == at - 1
                },
            }
            &&& failed_first_at(f.items, name, at) && at != f.selected ==> g.stdout_scroll
                == f.stdout_scroll
            &&& failed_first_at(f.items, name, at) && at == f.selected && g.items.len() > 0
                ==> g.stdout_scroll == (if lines_of(g.items[g.selected as int].stdout).len() > 20 {
                lines_of(g.items[g.selected as int].stdout).len() - 20
            } else {
                0
            }) as usize
        }),
{
    lemma_failed_at(s.failed.items, name);
    if failed_first_at(s.failed.items, name, at) && outcome is Failed {
        assert(s.failed.items.update(at, s.failed.items[at]) =~= s.failed.items);
    }
}

/// A crate that starts and is then compiled has taken the time in between, and runs no more.
pub proof fn law_time_runs_from_start_to_artifact(
    s: StateView,
    id: Seq<char>,
    name: Seq<char>,
    start: u64,
    end: u64,
    disk: u64,
)
    requires
        s.progress.seen < usize::MAX,
        runs_nowhere(s.progress.building, name),
        start <= end,
    ensures
        ({
            let started = applied(s, EventView::Started(name), start, disk);
            let done = applied(
                started,
                EventView::Artifact { id, name, fresh: false, real: true },
                end,
                disk,
            );
            &&& done.progress.building == s.progress.building
            &&& done.progress.done == s.progress.done.push(
                FinishedView { name, took: Took::Nanos((end - start) as u64) },
            )
            &&& done.project.compiled == s.project.compiled.insert(id)
        }),
{
    let n = s.progress.building.len() as int;
    law_what_starts_is_running(s, name, start, disk, 0);
    let started = applied(s, EventView::Started(name), start, disk);
    assert(runs_first_at(started.progress.building, name, n));
    law_compiled_crate_is_done(started, id, name, false, true, end, disk, n);
    let done = applied(
        started,
        EventView::Artifact { id, name, fresh: false, real: true },
        end,
        disk,
    );
    assert(started.progress.building.remove(n) =~= s.progress.building);
    assert(done.progress.done =~= done.progress.done.drop_last().push(done.progress.done.last()));
}

} // verus!
