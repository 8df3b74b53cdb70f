//! What the background work reports to the view.

use vstd::prelude::*;

verus! {

/// How long something took.
#[derive(Clone, Copy, PartialEq, Eq, Structural, Debug)]
pub enum Took {
    /// Nanoseconds on the view's own clock.
    Nanos(u64),
    /// Seconds as the test harness reported them: the bits of a double-precision number.
    SecondsBits(u64),
}

impl DeepView for Took {
    type V = Took;

    open spec fn deep_view(&self) -> Took {
        *self
    }
}

/// One compiler warning.
#[derive(Debug, PartialEq, Eq)]
pub struct Warning {
    pub message: String,
    pub location: Option<String>,
    pub help: Option<String>,
    pub rendered: String,
}

/// A [`Warning`] as a mathematical value.
pub struct WarningView {
    pub message: Seq<char>,
    pub location: Option<Seq<char>>,
    pub help: Option<Seq<char>>,
    pub rendered: Seq<char>,
}

impl DeepView for Warning {
    type V = WarningView;

    open spec fn deep_view(&self) -> WarningView {
        WarningView {
            message: self.message@,
            location: self.location.deep_view(),
            help: self.help.deep_view(),
            rendered: self.rendered@,
        }
    }
}

/// One failed test, collected for the post-run browsable list.
#[derive(Debug, PartialEq, Eq)]
pub struct FailedTest {
    pub name: String,
    pub took: Took,
    pub location: Option<String>,
    pub stdout: String,
}

/// A [`FailedTest`] as a mathematical value.
pub struct FailedTestView {
    pub name: Seq<char>,
    pub took: Took,
    pub location: Option<Seq<char>>,
    pub stdout: Seq<char>,
}

impl DeepView for FailedTest {
    type V = FailedTestView;

    open spec fn deep_view(&self) -> FailedTestView {
        FailedTestView {
            name: self.name@,
            took: self.took,
            location: self.location.deep_view(),
            stdout: self.stdout@,
        }
    }
}

/// Outcome of one finished test, carrying just enough to render inline and, on failure, to
/// inspect on demand.
#[derive(Debug, PartialEq, Eq)]
pub enum Outcome {
    Passed,
    Ignored,
    Failed {
        /// `file:line` pulled out of the panic message, when there is one to point at.
        location: Option<String>,
        /// Captured stdout for the test, panic message included.
        stdout: String,
    },
}

/// An [`Outcome`] as a mathematical value.
pub enum OutcomeView {
    Passed,
    Ignored,
    Failed { location: Option<Seq<char>>, stdout: Seq<char> },
}

impl DeepView for Outcome {
    type V = OutcomeView;

    open spec fn deep_view(&self) -> OutcomeView {
        match self {
            Outcome::Passed => OutcomeView::Passed,
            Outcome::Ignored => OutcomeView::Ignored,
            Outcome::Failed { location, stdout } => OutcomeView::Failed {
                location: location.deep_view(),
                stdout: stdout@,
            },
        }
    }
}

/// One report.
#[derive(Debug, PartialEq, Eq)]
pub enum Event {
    /// Sent once `cargo metadata` resolves, so the view can swap its startup placeholders for the
    /// real project name and (a first estimate of) the unit total.
    Ready {
        project: String,
        target_dir: String,
        total: usize,
        /// Crate name and version.
        versions: Vec<(String, String)>,
        /// Package id and crate name, kept around so a later retry can rebuild without paying for
        /// another `cargo metadata` call just to resolve artifact names again.
        names: Vec<(String, String)>,
    },
    /// A more exact unit count than `Ready`'s, from cargo's own unit graph. Arrives later because
    /// it costs its own `cargo` invocation, run only after the real build is under way.
    Total(usize),
    Started(String),
    /// The build script binary has been compiled and cargo is about to run it.
    ScriptRunning(String),
    /// Build scripts finish before the package's real lib/bin, so they get their own completion
    /// event instead of an `Artifact` for the "building" indicator to clear on.
    ScriptExecuted(String),
    Artifact { id: String, name: String, fresh: bool, real: bool },
    Warning(Warning),
    Error(String),
    /// Sent once compilation finishes, only when the verb needs the produced binaries afterward.
    Executables(Vec<String>),
    /// One test binary is about to run; carries how many tests it holds, added to the total.
    SuiteStarted { total: usize },
    TestStarted(String),
    TestFinished { name: String, took: Took, outcome: Outcome },
    /// A single failed test's rerun came back.
    RetryFinished { name: String, took: Took, outcome: Outcome },
    Done(bool),
}

/// An [`Event`] as a mathematical value.
pub enum EventView {
    Ready {
        project: Seq<char>,
        target_dir: Seq<char>,
        total: usize,
        versions: Seq<(Seq<char>, Seq<char>)>,
        names: Seq<(Seq<char>, Seq<char>)>,
    },
    Total(usize),
    Started(Seq<char>),
    ScriptRunning(Seq<char>),
    ScriptExecuted(Seq<char>),
    Artifact { id: Seq<char>, name: Seq<char>, fresh: bool, real: bool },
    Warning(WarningView),
    Error(Seq<char>),
    Executables(Seq<Seq<char>>),
    SuiteStarted { total: usize },
    TestStarted(Seq<char>),
    TestFinished { name: Seq<char>, took: Took, outcome: OutcomeView },
    RetryFinished { name: Seq<char>, took: Took, outcome: OutcomeView },
    Done(bool),
}

impl DeepView for Event {
    type V = EventView;

    open spec fn deep_view(&self) -> EventView {
        match self {
            Event::Ready { project, target_dir, total, versions, names } => EventView::Ready {
                project: project@,
                target_dir: target_dir@,
                total: *total,
                versions: versions.deep_view(),
                names: names.deep_view(),
            },
            Event::Total(total) => EventView::Total(*total),
            Event::Started(name) => EventView::Started(name@),
            Event::ScriptRunning(name) => EventView::ScriptRunning(name@),
            Event::ScriptExecuted(name) => EventView::ScriptExecuted(name@),
            Event::Artifact { id, name, fresh, real: is_real } => EventView::Artifact {
                id: id@,
                name: name@,
                fresh: *fresh,
                real: *is_real,
            },
            Event::Warning(warning) => EventView::Warning(warning.deep_view()),
            Event::Error(text) => EventView::Error(text@),
            Event::Executables(paths) => EventView::Executables(paths.deep_view()),
            Event::SuiteStarted { total } => EventView::SuiteStarted { total: *total },
            Event::TestStarted(name) => EventView::TestStarted(name@),
            Event::TestFinished { name, took, outcome } => EventView::TestFinished {
                name: name@,
                took: *took,
                outcome: outcome.deep_view(),
            },
            Event::RetryFinished { name, took, outcome } => EventView::RetryFinished {
                name: name@,
                took: *took,
                outcome: outcome.deep_view(),
            },
            Event::Done(ok) => EventView::Done(*ok),
        }
    }
}

} // verus!
