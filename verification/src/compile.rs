//! What cargo says while it compiles, and what the view learns from it.

use crate::events::{Event, EventView, Warning, WarningView};
use crate::metadata::{Target, TargetKind};
use crate::names::{entry_or, Names};
use crate::text::{
    begins_with, decimal, or_empty, print_decimal, spaces, split_chars, strip_prefix, white_space,
};
use vstd::prelude::*;
use vstd::string::*;

verus! {

// ---- status lines ----

/// An ASCII letter.
pub open spec fn ascii_letter(c: char) -> bool {
    'a' <= c <= 'z' || 'A' <= c <= 'Z'
}

/// A text without its terminal escape sequences. One begins with the escape character and ends
/// with the first ASCII letter after it; `in_escape` tells that `s` begins inside one.
pub open spec fn stripped(s: Seq<char>, in_escape: bool) -> Seq<char>
    decreases s.len(),
{
    if s.len() == 0 {
        seq![]
    } else if s[0] == '\u{1b}' {
        stripped(s.skip(1), true)
    } else if in_escape {
        stripped(s.skip(1), !ascii_letter(s[0]))
    } else {
        seq![s[0]] + stripped(s.skip(1), false)
    }
}

/// Strips the escape codes of cargo's own colored status lines.
pub fn strip_ansi(s: &str) -> (r: String)
    ensures
        r@ == stripped(s@, false),
{
    let mut out = String::new();
    let mut in_escape = false;
    let ghost mut i: int = 0;
    assert(s@.skip(0) =~= s@);
    assert(out@ + stripped(s@.skip(0), in_escape) =~= stripped(s@, false));
    for c in it: s.chars()
        invariant
            it.seq() == s@,
            i == it.index(),
            out@ + stripped(s@.skip(i), in_escape) == stripped(s@, false),
    {
        let ghost rest = s@.skip(i);
        let ghost before = out@;
        let ghost inside = in_escape;
        assert(rest[0] == c);
        assert(rest.skip(1) =~= s@.skip(i + 1));
        if c == '\u{1b}' {
            in_escape = true;
        } else if in_escape {
            in_escape = !(('a' <= c && c <= 'z') || ('A' <= c && c <= 'Z'));
        } else {
            out.push(c);
        }
        proof {
            assert(out@ + stripped(s@.skip(i + 1), in_escape) =~= before + stripped(rest, inside));
            i = i + 1;
        }
    }
    assert(s@.skip(i) =~= Seq::<char>::empty());
    assert(out@ =~= stripped(s@, false));
    out
}

/// How many characters at the front of `s` are white space, or are none, as `white` says.
pub open spec fn run_len(s: Seq<char>, white: bool) -> int
    decreases s.len(),
{
    if s.len() == 0 || white_space(s[0]) != white {
        0
    } else {
        1 + run_len(s.skip(1), white)
    }
}

/// `s` from its first character on that is no white space.
pub open spec fn trimmed_start(s: Seq<char>) -> Seq<char> {
    s.skip(run_len(s, true))
}

/// The first word of `s`, words being what white space separates.
pub open spec fn first_word(s: Seq<char>) -> Option<Seq<char>> {
    let t = trimmed_start(s);
    if t.len() == 0 {
        None
    } else {
        Some(t.take(run_len(t, false)))
    }
}

/// The crate that a status line says cargo has started to compile.
pub open spec fn started_in(line: Seq<char>) -> Option<Seq<char>> {
    let clean = trimmed_start(stripped(line, false));
    if begins_with(clean, "Compiling "@) {
        first_word(clean.skip("Compiling "@.len() as int))
    } else {
        None
    }
}

fn count_run(s: &str, white: bool) -> (r: usize)
    ensures
        r == run_len(s@, white),
        r <= s@.len(),
{
    let total: usize = s.unicode_len();
    let mut n: usize = 0;
    assert(s@.skip(0) =~= s@);
    for c in it: s.chars()
        invariant
            it.seq() == s@,
            n == it.index(),
            run_len(s@, white) == n + run_len(s@.skip(n as int), white),
            n <= total,
            total == s@.len(),
    {
        assert(s@.skip(n as int)[0] == c);
        assert(s@.skip(n as int).skip(1) =~= s@.skip(n + 1));
        if c.is_whitespace() != white {
            return n;
        }
        n = n + 1;
    }
    assert(s@.skip(n as int) =~= Seq::<char>::empty());
    n
}

fn trim_start<'a>(s: &'a str) -> (r: &'a str)
    ensures
        r@ == trimmed_start(s@),
{
    let n: usize = count_run(s, true);
    match split_chars(s, n) {
        Some((_, rest)) => rest,
        None => {
            let none = "";
            proof {
                reveal_strlit("");
                assert(none@ =~= s@.skip(n as int));
            }
            none
        },
    }
}

/// The crate that cargo says it has started to compile in a line of its stderr. It writes such
/// lines regardless of the message format, and nowhere else does one learn that a crate *started*.
pub fn started_crate(line: &str) -> (r: Option<String>)
    ensures
        r.deep_view() == started_in(line@),
{
    let clean = strip_ansi(line);
    let rest = match strip_prefix(trim_start(clean.as_str()), "Compiling ") {
        Some(rest) => rest,
        None => {
            return None;
        },
    };
    let rest = trim_start(rest);
    if rest.is_empty() {
        return None;
    }
    let n: usize = count_run(rest, false);
    let word = match split_chars(rest, n) {
        Some((word, _)) => word,
        None => {
            assert(rest@.take(n as int) =~= rest@);
            rest
        },
    };
    Some(word.to_owned())
}

/// Takes in one line of cargo's stderr: keeps it in `full`, and reports the crate that it says has
/// started where the build is `streaming`.
pub fn stderr_line(full: &mut String, line: &str, streaming: bool) -> (r: Option<Event>)
    ensures
        final(full)@ == old(full)@ + line@ + seq!['\n'],
        r.deep_view() == match started_in(line@) {
            Some(name) => if streaming {
                Some(EventView::Started(name))
            } else {
                None
            },
            None => None,
        },
{
    full.append(line);
    full.push('\n');
    assert(full@ =~= old(full)@ + line@ + seq!['\n']);
    match started_crate(line) {
        Some(name) => if streaming {
            Some(Event::Started(name))
        } else {
            None
        },
        None => None,
    }
}

/// A stretch of characters that all are white space, or all are none, as `white` says, ends where
/// the first other one stands.
proof fn lemma_run_len(run: Seq<char>, rest: Seq<char>, white: bool)
    requires
        forall|i: int| 0 <= i < run.len() ==> white_space(#[trigger] run[i]) == white,
        rest.len() > 0 ==> white_space(rest[0]) != white,
    ensures
        run_len(run + rest, white) == run.len(),
    decreases run.len(),
{
    let s = run + rest;
    if run.len() > 0 {
        assert(s[0] == run[0]);
        assert(s.skip(1) =~= run.skip(1) + rest);
        lemma_run_len(run.skip(1), rest, white);
    }
}

/// A status line that reads `Compiling`, a crate's name and whatever follows it, indented and
/// colored in any way, names that crate.
pub proof fn law_status_line_names_its_crate(
    line: Seq<char>,
    indent: nat,
    name: Seq<char>,
    rest: Seq<char>,
)
    requires
        name.len() > 0,
        forall|i: int| 0 <= i < name.len() ==> !white_space(#[trigger] name[i]),
        stripped(line, false) == spaces(indent) + "Compiling "@ + name + " "@ + rest,
    ensures
        started_in(line) == Some(name),
{
    reveal_strlit("Compiling ");
    reveal_strlit(" ");
    let word = name + (" "@ + rest);
    let said = "Compiling "@ + word;
    assert(stripped(line, false) =~= spaces(indent) + said);
    assert(said[0] == 'C');
    lemma_run_len(spaces(indent), said, true);
    assert((spaces(indent) + said).skip(indent as int) =~= said);
    assert(said.take("Compiling "@.len() as int) =~= "Compiling "@);
    assert(said.skip("Compiling "@.len() as int) =~= word);
    assert(word[0] == name[0]);
    lemma_run_len(Seq::empty(), word, true);
    assert(Seq::empty() + word =~= word);
    assert(word.skip(0) =~= word);
    assert((" "@ + rest)[0] == ' ');
    lemma_run_len(name, " "@ + rest, false);
    assert(word.take(name.len() as int) =~= name);
}

/// What is left of a text after stripping holds no escape character.
pub proof fn law_stripped_has_no_escape(s: Seq<char>, in_escape: bool)
    ensures
        !stripped(s, in_escape).contains('\u{1b}'),
    decreases s.len(),
{
    if s.len() > 0 {
        law_stripped_has_no_escape(s.skip(1), true);
        law_stripped_has_no_escape(s.skip(1), !ascii_letter(s[0]));
        law_stripped_has_no_escape(s.skip(1), false);
        let rest = stripped(s.skip(1), false);
        if s[0] != '\u{1b}' {
            assert forall|i: int| 0 <= i < (seq![s[0]] + rest).len() implies (seq![s[0]] + rest)[i]
                != '\u{1b}' by {
                if i > 0 {
                    assert((seq![s[0]] + rest)[i] == rest[i - 1]);
                }
            }
        }
    }
}

/// A text without an escape character is left as it is.
pub proof fn law_plain_text_is_kept(s: Seq<char>)
    requires
        !s.contains('\u{1b}'),
    ensures
        stripped(s, false) == s,
    decreases s.len(),
{
    if s.len() > 0 {
        assert(s[0] != '\u{1b}');
        assert forall|i: int| 0 <= i < s.skip(1).len() implies s.skip(1)[i] != '\u{1b}' by {
            assert(s.skip(1)[i] == s[i + 1]);
        }
        law_plain_text_is_kept(s.skip(1));
        assert(seq![s[0]] + s.skip(1) =~= s);
    } else {
        assert(stripped(s, false) =~= s);
    }
}

/// Stripping a second time changes nothing.
pub proof fn law_stripping_twice_is_stripping_once(s: Seq<char>)
    ensures
        stripped(stripped(s, false), false) == stripped(s, false),
{
    law_stripped_has_no_escape(s, false);
    law_plain_text_is_kept(stripped(s, false));
}

// ---- diagnostics ----

/// How bad a diagnostic is.
#[derive(Clone, Copy, PartialEq, Eq, Structural, Debug)]
pub enum DiagnosticLevel {
    Ice,
    Error,
    Warning,
    FailureNote,
    Note,
    Help,
    Other,
}

/// A place in the source that a diagnostic points at.
#[derive(Debug, PartialEq, Eq)]
pub struct DiagnosticSpan {
    pub file_name: String,
    pub line_start: usize,
    pub is_primary: bool,
}

/// A message of the compiler.
#[derive(Debug, PartialEq, Eq)]
pub struct Diagnostic {
    pub message: String,
    pub level: DiagnosticLevel,
    pub spans: Vec<DiagnosticSpan>,
    pub children: Vec<Diagnostic>,
    pub rendered: Option<String>,
}

/// `file:line` of the first primary span.
pub open spec fn primary_location(spans: Seq<DiagnosticSpan>) -> Option<Seq<char>>
    decreases spans.len(),
{
    if spans.len() == 0 {
        None
    } else if spans[0].is_primary {
        Some(spans[0].file_name@ + ":"@ + decimal(spans[0].line_start as nat))
    } else {
        primary_location(spans.skip(1))
    }
}

/// The message of the first child that is a help.
pub open spec fn first_help(children: Seq<Diagnostic>) -> Option<Seq<char>>
    decreases children.len(),
{
    if children.len() == 0 {
        None
    } else if children[0].level is Help {
        Some(children[0].message@)
    } else {
        first_help(children.skip(1))
    }
}

/// What the view keeps of a diagnostic.
pub open spec fn warning_of(d: Diagnostic) -> WarningView {
    WarningView {
        message: d.message@,
        location: primary_location(d.spans@),
        help: first_help(d.children@),
        rendered: or_empty(d.rendered.deep_view()),
    }
}

fn find_location(spans: &Vec<DiagnosticSpan>) -> (r: Option<String>)
    ensures
        r.deep_view() == primary_location(spans@),
{
    let mut i: usize = 0;
    assert(spans@.skip(0) =~= spans@);
    while i < spans.len()
        invariant
            i <= spans.len(),
            primary_location(spans@) == primary_location(spans@.skip(i as int)),
        decreases spans.len() - i,
    {
        assert(spans@.skip(i as int).skip(1) =~= spans@.skip(i + 1));
        let span = &spans[i];
        if span.is_primary {
            let mut out = span.file_name.clone();
            out.append(":");
            out.append(print_decimal(span.line_start as u64).as_str());
            return Some(out);
        }
        i = i + 1;
    }
    None
}

fn find_help(children: &Vec<Diagnostic>) -> (r: Option<String>)
    ensures
        r.deep_view() == first_help(children@),
{
    let mut i: usize = 0;
    assert(children@.skip(0) =~= children@);
    while i < children.len()
        invariant
            i <= children.len(),
            first_help(children@) == first_help(children@.skip(i as int)),
        decreases children.len() - i,
    {
        assert(children@.skip(i as int).skip(1) =~= children@.skip(i + 1));
        match children[i].level {
            DiagnosticLevel::Help => {
                return Some(children[i].message.clone());
            },
            _ => {},
        }
        i = i + 1;
    }
    None
}

/// The warning that the panel shows for a diagnostic.
pub fn to_warning(d: &Diagnostic) -> (r: Warning)
    ensures
        r.deep_view() == warning_of(*d),
{
    Warning {
        message: d.message.clone(),
        location: find_location(&d.spans),
        help: find_help(&d.children),
        rendered: match &d.rendered {
            Some(text) => text.clone(),
            None => String::new(),
        },
    }
}

// ---- cargo's messages ----

/// A message of cargo's JSON stream.
#[derive(Debug, PartialEq, Eq)]
pub enum CargoMessage {
    CompilerArtifact {
        package_id: String,
        target: Target,
        fresh: bool,
        executable: Option<String>,
    },
    BuildScriptExecuted { package_id: String },
    CompilerMessage(Diagnostic),
    BuildFinished { success: bool },
    Other,
}

/// The target is the build script of its package.
pub open spec fn is_build_script(target: Target) -> bool {
    exists|k: int| 0 <= k < target.kind@.len() && #[trigger] target.kind@[k] is CustomBuild
}

/// What the stream reports to the view, message by message.
pub open spec fn message_events(
    names: Map<Seq<char>, Seq<char>>,
    message: CargoMessage,
) -> Seq<EventView> {
    match message {
        CargoMessage::CompilerArtifact { package_id, target, fresh, executable } => {
            let name = entry_or(names, package_id@, target.name@);
            let artifact = EventView::Artifact {
                id: package_id@,
                name,
                fresh,
                real: !is_build_script(target),
            };
            if is_build_script(target) && !fresh {
                seq![EventView::ScriptRunning(name), artifact]
            } else {
                seq![artifact]
            }
        },
        CargoMessage::BuildScriptExecuted { package_id } => seq![
            EventView::ScriptExecuted(entry_or(names, package_id@, package_id@)),
        ],
        CargoMessage::CompilerMessage(d) => match (d.level, d.rendered) {
            (DiagnosticLevel::Error, Some(rendered)) => seq![EventView::Error(rendered@)],
            (DiagnosticLevel::Warning, _) => seq![EventView::Warning(warning_of(d))],
            _ => seq![],
        },
        _ => seq![],
    }
}

/// What one compile run has come to so far.
pub struct Compile {
    /// Whether it succeeded.
    pub ok: bool,
    /// Every runnable artifact it produced (bins, examples, test binaries) in build order.
    pub executables: Vec<String>,
    /// The compiler's error text, empty once the run has ended well.
    pub errors: String,
}

/// A [`Compile`] as a mathematical value.
pub struct CompileView {
    pub ok: bool,
    pub executables: Seq<Seq<char>>,
    pub errors: Seq<char>,
}

impl View for Compile {
    type V = CompileView;

    open spec fn view(&self) -> CompileView {
        CompileView {
            ok: self.ok,
            executables: self.executables.deep_view(),
            errors: self.errors@,
        }
    }
}

/// The run after one more message.
pub open spec fn after_message(run: CompileView, message: CargoMessage) -> CompileView {
    match message {
        CargoMessage::CompilerArtifact { executable: Some(path), .. } => CompileView {
            executables: run.executables.push(path@),
            ..run
        },
        CargoMessage::CompilerMessage(d) => match (d.level, d.rendered) {
            (DiagnosticLevel::Error, Some(rendered)) => CompileView {
                errors: run.errors + rendered@,
                ..run
            },
            _ => run,
        },
        CargoMessage::BuildFinished { success } => CompileView { ok: success, ..run },
        _ => run,
    }
}

/// A text of white space alone.
pub open spec fn blank(s: Seq<char>) -> bool {
    forall|i: int| 0 <= i < s.len() ==> white_space(#[trigger] s[i])
}

/// A failed run reports what cargo wrote to stderr, where it wrote something.
pub open spec fn reports_stderr(run: CompileView, stderr: Seq<char>) -> bool {
    !run.ok && !blank(stderr)
}

/// The run once cargo has exited. It may fail without a word on how the build finished, such as on
/// a flag that it does not know.
pub open spec fn after_exit(run: CompileView, success: bool) -> CompileView {
    CompileView { ok: run.ok && success, ..run }
}

/// The run at its end: one that succeeded has no error text, and one that failed has what cargo
/// wrote to stderr at the end of it.
pub open spec fn at_end(run: CompileView, stderr: Seq<char>) -> CompileView {
    if run.ok {
        CompileView { errors: seq![], ..run }
    } else if reports_stderr(run, stderr) {
        CompileView { errors: run.errors + stderr, ..run }
    } else {
        run
    }
}

fn has_kind_custom_build(target: &Target) -> (r: bool)
    ensures
        r == is_build_script(*target),
{
    let mut i: usize = 0;
    while i < target.kind.len()
        invariant
            i <= target.kind.len(),
            forall|k: int| 0 <= k < i ==> !(#[trigger] target.kind@[k] is CustomBuild),
        decreases target.kind.len() - i,
    {
        match target.kind[i] {
            TargetKind::CustomBuild => {
                assert(target.kind@[i as int] is CustomBuild);
                return true;
            },
            _ => {},
        }
        i = i + 1;
    }
    false
}

fn name_or(names: &Names, id: &str, default: String) -> (r: String)
    ensures
        r@ == entry_or(names@, id@, default@),
{
    match names.get(id) {
        Some(name) => name.clone(),
        None => default,
    }
}

fn is_blank(s: &str) -> (r: bool)
    ensures
        r == blank(s@),
{
    for c in it: s.chars()
        invariant
            it.seq() == s@,
            forall|i: int| 0 <= i < it.index() ==> white_space(#[trigger] s@[i]),
    {
        assert(s@[it.index()] == c);
        if !c.is_whitespace() {
            return false;
        }
    }
    true
}

impl Compile {
    /// A run that has not said anything yet.
    pub fn new() -> (r: Compile)
        ensures
            r@ == (CompileView { ok: true, executables: seq![], errors: seq![] }),
    {
        let r = Compile { ok: true, executables: Vec::new(), errors: String::new() };
        assert(r@.executables =~= Seq::<Seq<char>>::empty());
        r
    }

    /// Takes in one message of cargo, and hands out what it reports to the view. A run that is not
    /// `streaming` reports nothing: that is the quiet path a retry rebuilds with.
    pub fn on_message(&mut self, names: &Names, message: CargoMessage, streaming: bool) -> (r: Vec<
        Event,
    >)
        ensures
            final(self)@ == after_message(old(self)@, message),
            r.deep_view() == if streaming {
                message_events(names@, message)
            } else {
                seq![]
            },
    {
        let ghost whole = message;
        let mut events: Vec<Event> = Vec::new();
        match message {
            CargoMessage::CompilerArtifact { package_id, target, fresh, executable } => {
                if let Some(path) = executable {
                    let ghost before = self.executables.deep_view();
                    self.executables.push(path);
                    assert(self.executables.deep_view() =~= before.push(path@));
                }
                if streaming {
                    let script = has_kind_custom_build(&target);
                    let name = name_or(names, package_id.as_str(), target.name);
                    if script && !fresh {
                        events.push(Event::ScriptRunning(name.clone()));
                    }
                    events.push(Event::Artifact { id: package_id, name, fresh, real: !script });
                }
            },
            CargoMessage::BuildScriptExecuted { package_id } => {
                if streaming {
                    let name = name_or(names, package_id.as_str(), package_id.clone());
                    events.push(Event::ScriptExecuted(name));
                }
            },
            CargoMessage::CompilerMessage(d) => {
                match d.level {
                    DiagnosticLevel::Error => {
                        if let Some(rendered) = d.rendered {
                            self.errors.append(rendered.as_str());
                            if streaming {
                                events.push(Event::Error(rendered));
                            }
                        }
                    },
                    DiagnosticLevel::Warning => {
                        if streaming {
                            events.push(Event::Warning(to_warning(&d)));
                        }
                    },
                    _ => {},
                }
            },
            CargoMessage::BuildFinished { success } => {
                self.ok = success;
            },
            CargoMessage::Other => {},
        }
        proof {
            if streaming {
                assert(events.deep_view() =~= message_events(names@, whole));
            } else {
                assert(events.deep_view() =~= Seq::<EventView>::empty());
            }
        }
        events
    }

    /// Takes in how cargo exited.
    pub fn exited(&mut self, success: bool)
        ensures
            final(self)@ == after_exit(old(self)@, success),
            final(self)@.ok == (old(self)@.ok && success),
    {
        self.ok = self.ok && success;
    }

    /// Ends the run with what cargo wrote to stderr.
    pub fn finish(&mut self, stderr: String, streaming: bool) -> (r: Option<Event>)
        ensures
            final(self)@ == at_end(old(self)@, stderr@),
            final(self)@.ok ==> final(self)@.errors.len() == 0,
            r.deep_view() == if streaming && reports_stderr(old(self)@, stderr@) {
                Some(EventView::Error(stderr@))
            } else {
                None
            },
    {
        if self.ok {
            self.errors = String::new();
            assert(self@.errors =~= Seq::<char>::empty());
            return None;
        }
        if is_blank(stderr.as_str()) {
            return None;
        }
        self.errors.append(stderr.as_str());
        if streaming {
            Some(Event::Error(stderr))
        } else {
            None
        }
    }
}

/// A message that adds to the error text of a run reports that same text, and nothing else.
pub proof fn law_errors_are_reported(
    run: CompileView,
    names: Map<Seq<char>, Seq<char>>,
    message: CargoMessage,
)
    ensures
        after_message(run, message).errors != run.errors ==> exists|text: Seq<char>|
            message_events(names, message) == seq![EventView::Error(text)] && #[trigger] (
            run.errors + text) == after_message(run, message).errors,
{
    if let CargoMessage::CompilerMessage(d) = message {
        if let Some(rendered) = d.rendered {
            assert(run.errors + rendered@ == run.errors + rendered@);
        }
    }
}

/// The run after several messages.
pub open spec fn after_messages(run: CompileView, messages: Seq<CargoMessage>) -> CompileView
    decreases messages.len(),
{
    if messages.len() == 0 {
        run
    } else {
        after_message(after_messages(run, messages.drop_last()), messages.last())
    }
}

/// The runnable artifacts that the messages tell of, in order.
pub open spec fn executables_in(messages: Seq<CargoMessage>) -> Seq<Seq<char>>
    decreases messages.len(),
{
    if messages.len() == 0 {
        seq![]
    } else {
        let before = executables_in(messages.drop_last());
        match messages.last() {
            CargoMessage::CompilerArtifact { executable: Some(path), .. } => before.push(path@),
            _ => before,
        }
    }
}

/// The message is an error that the compiler has rendered.
pub open spec fn is_rendered_error(message: CargoMessage) -> bool {
    match message {
        CargoMessage::CompilerMessage(d) => d.level is Error && d.rendered is Some,
        _ => false,
    }
}

/// A run collects every runnable artifact in build order, and its error text stays empty as long as
/// the compiler renders no error.
pub proof fn law_run_collects_in_build_order(run: CompileView, messages: Seq<CargoMessage>)
    ensures
        after_messages(run, messages).executables == run.executables + executables_in(messages),
        (forall|i: int| 0 <= i < messages.len() ==> !is_rendered_error(#[trigger] messages[i]))
            ==> after_messages(run, messages).errors == run.errors,
    decreases messages.len(),
{
    if messages.len() > 0 {
        let before = messages.drop_last();
        law_run_collects_in_build_order(run, before);
        if forall|i: int| 0 <= i < messages.len() ==> !is_rendered_error(#[trigger] messages[i]) {
            assert forall|i: int| 0 <= i < before.len() implies !is_rendered_error(
                #[trigger] before[i],
            ) by {
                assert(before[i] == messages[i]);
            }
            assert(!is_rendered_error(messages[messages.len() - 1]));
        }
    }
    assert(after_messages(run, messages).executables =~= run.executables + executables_in(messages));
}

/// The last word on how the build finished, `ok` where there is none.
pub open spec fn last_word(ok: bool, messages: Seq<CargoMessage>) -> bool
    decreases messages.len(),
{
    if messages.len() == 0 {
        ok
    } else {
        match messages.last() {
            CargoMessage::BuildFinished { success } => success,
            _ => last_word(ok, messages.drop_last()),
        }
    }
}

/// A whole run succeeds exactly where cargo exits well and its last word on the build, if there is
/// one, is that it succeeded. Its error text is empty then, and where it failed it holds whatever
/// cargo wrote to stderr.
pub proof fn law_run_succeeds_where_cargo_does(
    messages: Seq<CargoMessage>,
    success: bool,
    stderr: Seq<char>,
)
    ensures
        ({
            let start = CompileView { ok: true, executables: seq![], errors: seq![] };
            let end = at_end(after_exit(after_messages(start, messages), success), stderr);
            &&& end.ok == (success && last_word(true, messages))
            &&& end.ok ==> end.errors.len() == 0
            &&& !end.ok && !blank(stderr) ==> stderr.is_suffix_of(end.errors)
            &&& end.executables == executables_in(messages)
        }),
{
    let start = CompileView { ok: true, executables: seq![], errors: seq![] };
    lemma_ok_is_last_word(start, messages);
    law_run_collects_in_build_order(start, messages);
    assert(start.executables + executables_in(messages) =~= executables_in(messages));
    let run = after_exit(after_messages(start, messages), success);
    assert(stderr.is_suffix_of(run.errors + stderr)) by {
        let text = run.errors + stderr;
        assert(text.subrange(text.len() - stderr.len(), text.len() as int) =~= stderr);
    }
}

proof fn lemma_ok_is_last_word(run: CompileView, messages: Seq<CargoMessage>)
    ensures
        after_messages(run, messages).ok == last_word(run.ok, messages),
    decreases messages.len(),
{
    if messages.len() > 0 {
        lemma_ok_is_last_word(run, messages.drop_last());
    }
}

// ---- what cargo's words come to ----

proof fn lemma_plain_front_is_kept(front: Seq<char>, rest: Seq<char>)
    requires
        !front.contains('\u{1b}'),
    ensures
        stripped(front + rest, false) == front + stripped(rest, false),
    decreases front.len(),
{
    let s = front + rest;
    if front.len() > 0 {
        let tail = front.skip(1);
        assert(front.contains(front[0]));
        assert forall|i: int| 0 <= i < tail.len() implies tail[i] != '\u{1b}' by {
            assert(tail[i] == front[i + 1]);
            assert(front.contains(front[i + 1]));
        }
        lemma_plain_front_is_kept(tail, rest);
        assert(s.skip(1) =~= tail + rest);
        assert(s[0] == front[0]);
        assert(seq![front[0]] + (tail + stripped(rest, false)) =~= front + stripped(rest, false));
    } else {
        assert(s =~= rest);
        assert(front + stripped(rest, false) =~= stripped(rest, false));
    }
}

proof fn lemma_escape_goes_on(body: Seq<char>, rest: Seq<char>)
    requires
        forall|i: int|
            0 <= i < body.len() ==> !('a' <= #[trigger] body[i] <= 'z') && !('A' <= body[i] <= 'Z'),
    ensures
        stripped(body + rest, true) == stripped(rest, true),
    decreases body.len(),
{
    let s = body + rest;
    if body.len() > 0 {
        assert(s.skip(1) =~= body.skip(1) + rest);
        assert(s[0] == body[0]);
        assert forall|i: int| 0 <= i < body.skip(1).len() implies !('a' <= #[trigger] body.skip(1)[i]
            <= 'z') && !('A' <= body.skip(1)[i] <= 'Z') by {
            assert(body.skip(1)[i] == body[i + 1]);
        }
        lemma_escape_goes_on(body.skip(1), rest);
    } else {
        assert(s =~= rest);
    }
}

/// An escape sequence, from the escape character to the first ASCII letter after it, is cut out, and
/// nothing around it is; one that does not end takes the rest of the text with it.
pub proof fn law_escape_sequence_is_cut_out(
    before: Seq<char>,
    body: Seq<char>,
    letter: char,
    after: Seq<char>,
)
    requires
        !before.contains('\u{1b}'),
        forall|i: int|
            0 <= i < body.len() ==> !('a' <= #[trigger] body[i] <= 'z') && !('A' <= body[i] <= 'Z'),
        'a' <= letter <= 'z' || 'A' <= letter <= 'Z',
    ensures
        stripped(before + seq!['\u{1b}'] + body + seq![letter] + after, false) == before + stripped(
            after,
            false,
        ),
        stripped(before + seq!['\u{1b}'] + body, false) == before,
{
    let end = seq![letter] + after;
    assert(end.skip(1) =~= after);
    let cut = seq!['\u{1b}'] + (body + end);
    assert(cut.skip(1) =~= body + end);
    assert(before + seq!['\u{1b}'] + body + seq![letter] + after =~= before + cut);
    lemma_plain_front_is_kept(before, cut);
    lemma_escape_goes_on(body, end);
    let open = seq!['\u{1b}'] + (body + Seq::<char>::empty());
    assert(open.skip(1) =~= body + Seq::<char>::empty());
    assert(before + seq!['\u{1b}'] + body =~= before + open);
    lemma_plain_front_is_kept(before, open);
    lemma_escape_goes_on(body, Seq::empty());
    assert(before + stripped(open, false) =~= before);
}

/// A status line that says anything but `Compiling`, or that names nothing after it, starts no
/// crate.
pub proof fn law_other_lines_start_nothing(line: Seq<char>, indent: Seq<char>, rest: Seq<char>)
    requires
        stripped(line, false) == indent + rest,
        forall|i: int| 0 <= i < indent.len() ==> white_space(#[trigger] indent[i]),
        rest.len() > 0 ==> !white_space(rest[0]),
        !begins_with(rest, "Compiling "@) || (forall|i: int|
            "Compiling "@.len() <= i < rest.len() ==> white_space(#[trigger] rest[i])),
    ensures
        started_in(line) is None,
{
    lemma_run_len(indent, rest, true);
    assert((indent + rest).skip(indent.len() as int) =~= rest);
    if begins_with(rest, "Compiling "@) {
        let after = rest.skip("Compiling "@.len() as int);
        assert forall|i: int| 0 <= i < after.len() implies white_space(#[trigger] after[i]) by {
            assert(after[i] == rest[i + "Compiling "@.len()]);
        }
        lemma_run_len(after, Seq::empty(), true);
        assert(after + Seq::<char>::empty() =~= after);
    }
}

proof fn lemma_primary_location(spans: Seq<DiagnosticSpan>, i: int)
    ensures
        0 <= i < spans.len() && spans[i].is_primary && (forall|j: int|
            0 <= j < i ==> !(#[trigger] spans[j]).is_primary) ==> primary_location(spans) == Some(
            spans[i].file_name@ + ":"@ + decimal(spans[i].line_start as nat),
        ),
        (forall|j: int| 0 <= j < spans.len() ==> !(#[trigger] spans[j]).is_primary)
            ==> primary_location(spans) is None,
    decreases spans.len(),
{
    if spans.len() > 0 {
        let rest = spans.skip(1);
        assert(forall|j: int| 0 <= j < rest.len() ==> #[trigger] rest[j] == spans[j + 1]);
        lemma_primary_location(rest, i - 1);
        if i > 0 && !spans[0].is_primary && i < spans.len() {
            assert(rest[i - 1] == spans[i]);
        }
    }
}

proof fn lemma_first_help(children: Seq<Diagnostic>, i: int)
    ensures
        0 <= i < children.len() && children[i].level is Help && (forall|j: int|
            0 <= j < i ==> !((#[trigger] children[j]).level is Help)) ==> first_help(children)
            == Some(children[i].message@),
        (forall|j: int| 0 <= j < children.len() ==> !((#[trigger] children[j]).level is Help))
            ==> first_help(children) is None,
    decreases children.len(),
{
    if children.len() > 0 {
        let rest = children.skip(1);
        assert(forall|j: int| 0 <= j < rest.len() ==> #[trigger] rest[j] == children[j + 1]);
        lemma_first_help(rest, i - 1);
        if i > 0 && !(children[0].level is Help) && i < children.len() {
            assert(rest[i - 1] == children[i]);
        }
    }
}

/// A warning keeps the message and the full text of its diagnostic, points at the file and the line
/// of the first primary span, and helps with the first child that is a help; without one of these it
/// points at nothing, or helps with nothing.
pub proof fn law_warning_points_at_its_cause(d: Diagnostic, span: int, child: int)
    ensures
        warning_of(d).message == d.message@,
        d.rendered is Some ==> warning_of(d).rendered == d.rendered->0@,
        d.rendered is None ==> warning_of(d).rendered.len() == 0,
        0 <= span < d.spans@.len() && d.spans@[span].is_primary && (forall|j: int|
            0 <= j < span ==> !(#[trigger] d.spans@[j]).is_primary) ==> warning_of(d).location
            == Some(d.spans@[span].file_name@ + ":"@ + decimal(d.spans@[span].line_start as nat)),
        (forall|j: int| 0 <= j < d.spans@.len() ==> !(#[trigger] d.spans@[j]).is_primary)
            ==> warning_of(d).location is None,
        0 <= child < d.children@.len() && d.children@[child].level is Help && (forall|j: int|
            0 <= j < child ==> !((#[trigger] d.children@[j]).level is Help)) ==> warning_of(d).help
            == Some(d.children@[child].message@),
        (forall|j: int| 0 <= j < d.children@.len() ==> !((#[trigger] d.children@[j]).level is Help))
            ==> warning_of(d).help is None,
{
    lemma_primary_location(d.spans@, span);
    lemma_first_help(d.children@, child);
}

/// What the view hears of a message. An artifact goes by the name of its package, or by that of its
/// target where the package is not known, is real unless it is a build script, and a build script
/// that was really compiled is about to run. An error is its full text, a warning its diagnostic.
/// Nothing else is heard.
pub proof fn law_view_hears_of_each_message(
    names: Map<Seq<char>, Seq<char>>,
    message: CargoMessage,
)
    ensures
        ({
            let heard = message_events(names, message);
            match message {
                CargoMessage::CompilerArtifact { package_id, target, fresh, .. } => {
                    let script = exists|k: int|
                        0 <= k < target.kind@.len() && #[trigger] target.kind@[k] is CustomBuild;
                    let name = if names.contains_key(package_id@) {
                        names[package_id@]
                    } else {
                        target.name@
                    };
                    &&& heard.len() == if script && !fresh {
                        2int
                    } else {
                        1
                    }
                    &&& heard.last() == (EventView::Artifact {
                        id: package_id@,
                        name,
                        fresh,
                        real: !script,
                    })
                    &&& heard.len() == 2 ==> heard[0] == EventView::ScriptRunning(name)
                },
                CargoMessage::BuildScriptExecuted { package_id } => heard == seq![
                    EventView::ScriptExecuted(
                        if names.contains_key(package_id@) {
                            names[package_id@]
                        } else {
                            package_id@
                        },
                    ),
                ],
                CargoMessage::CompilerMessage(d) => {
                    &&& d.level is Error && d.rendered is Some ==> heard == seq![
                        EventView::Error(d.rendered->0@),
                    ]
                    &&& d.level is Warning ==> heard == seq![EventView::Warning(warning_of(d))]
                    &&& !(d.level is Warning) && !(d.level is Error && d.rendered is Some)
                        ==> heard.len() == 0
                },
                _ => heard.len() == 0,
            }
        }),
{
}

/// What a message does to the run: an artifact with an executable adds it at the end, a rendered
/// error adds its text at the end, how the build finished is taken over, and nothing else changes.
pub proof fn law_run_takes_in_each_message(run: CompileView, message: CargoMessage)
    ensures
        ({
            let next = after_message(run, message);
            &&& next.executables == match message {
                CargoMessage::CompilerArtifact { executable: Some(path), .. } =>
                    run.executables.push(path@),
                _ => run.executables,
            }
            &&& next.errors == match message {
                CargoMessage::CompilerMessage(d) => if d.level is Error && d.rendered is Some {
                    run.errors + d.rendered->0@
                } else {
                    run.errors
                },
                _ => run.errors,
            }
            &&& next.ok == match message {
                CargoMessage::BuildFinished { success } => success,
                _ => run.ok,
            }
        }),
{
}

/// A whole run succeeds exactly where cargo exits well and the last message on how the build
/// finished, the one at `at`, says so; without any such message its exit alone decides. The view
/// hears what cargo wrote to stderr exactly where the run failed and there is something in it.
pub proof fn law_last_message_and_exit_decide(
    messages: Seq<CargoMessage>,
    success: bool,
    stderr: Seq<char>,
    at: int,
)
    ensures
        ({
            let start = CompileView { ok: true, executables: seq![], errors: seq![] };
            let run = after_exit(after_messages(start, messages), success);
            let end = at_end(run, stderr);
            let something = exists|i: int|
                0 <= i < stderr.len() && !white_space(#[trigger] stderr[i]);
            &&& 0 <= at < messages.len() && messages[at] is BuildFinished && (forall|j: int|
                at < j < messages.len() ==> !(#[trigger] messages[j] is BuildFinished)) ==> end.ok
                == (success && messages[at]->BuildFinished_success)
            &&& (forall|j: int|
                0 <= j < messages.len() ==> !(#[trigger] messages[j] is BuildFinished)) ==> end.ok
                == success
            &&& end.ok ==> end.errors.len() == 0
            &&& reports_stderr(run, stderr) <==> !end.ok && something
            &&& !end.ok ==> end.errors == if something {
                run.errors + stderr
            } else {
                run.errors
            }
        }),
{
    let start = CompileView { ok: true, executables: seq![], errors: seq![] };
    lemma_ok_is_last_word(start, messages);
    lemma_last_word(messages, at);
}

proof fn lemma_last_word(messages: Seq<CargoMessage>, at: int)
    ensures
        0 <= at < messages.len() && messages[at] is BuildFinished && (forall|j: int|
            at < j < messages.len() ==> !(#[trigger] messages[j] is BuildFinished)) ==> last_word(
            true,
            messages,
        ) == messages[at]->BuildFinished_success,
        (forall|j: int| 0 <= j < messages.len() ==> !(#[trigger] messages[j] is BuildFinished))
            ==> last_word(true, messages),
    decreases messages.len(),
{
    if messages.len() > 0 {
        let before = messages.drop_last();
        assert(forall|j: int| 0 <= j < before.len() ==> #[trigger] before[j] == messages[j]);
        lemma_last_word(before, at);
        if !(messages.last() is BuildFinished) && 0 <= at < messages.len() && messages[at]
            is BuildFinished {
            assert(before[at] == messages[at]);
        }
        if messages.last() is BuildFinished {
            assert(messages[messages.len() - 1] is BuildFinished);
        }
    }
}

} // verus!
