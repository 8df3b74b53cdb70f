//! One frame of the view: what a key does, what is on screen, and when it is over.

use crate::state::{tail_at, well_formed, FailedTestsView, State, StateView, WarningsView};
use crate::stdout::STDOUT_PAGE;
use crate::table::{table, table_of_state};
use crate::text::lines_of;
use crate::ui::{
    panel_of, summary_block, summary_of, warning_panel, CellView, Look, Panel, PanelView, Row, RowView,
};
use vstd::prelude::*;

verus! {

/// A key that was pressed, as far as the view tells keys apart.
#[derive(Clone, Copy, PartialEq, Eq, Structural, Debug)]
pub enum Key {
    Up,
    Down,
    Enter,
    Esc,
    PageUp,
    PageDown,
    Char(char),
    Other,
}

/// How many frames the view takes to settle once the build is over.
pub const SETTLE_FRAMES: u8 = 8;

/// The view and everything it accumulates.
pub struct Screen {
    pub state: State,
    /// Tests are run, so the table stays on screen once it is over.
    pub is_test: bool,
    /// The command that the view stands for.
    pub flag_line: String,
    /// How many frames have been drawn since the build was over, up to [`SETTLE_FRAMES`].
    pub settle: u8,
    /// The warning panel has been dismissed.
    pub dismissing: bool,
}

/// A [`Screen`] as a mathematical value.
#[verifier::ext_equal]
pub struct ScreenView {
    pub state: StateView,
    pub is_test: bool,
    pub flag_line: Seq<char>,
    pub settle: u8,
    pub dismissing: bool,
}

impl View for Screen {
    type V = ScreenView;

    open spec fn view(&self) -> ScreenView {
        ScreenView {
            state: self.state@,
            is_test: self.is_test,
            flag_line: self.flag_line@,
            settle: self.settle,
            dismissing: self.dismissing,
        }
    }
}

/// What is on screen.
#[derive(Debug, PartialEq, Eq)]
pub enum Shown {
    Nothing,
    Table(Vec<Row>),
    Warnings(Panel),
    Summary(Vec<Row>),
}

/// A [`Shown`] as a mathematical value.
pub enum ShownView {
    Nothing,
    Table(Seq<RowView>),
    Warnings(PanelView),
    Summary(Seq<RowView>),
}

impl DeepView for Shown {
    type V = ShownView;

    open spec fn deep_view(&self) -> ShownView {
        match self {
            Shown::Nothing => ShownView::Nothing,
            Shown::Table(rows) => ShownView::Table(rows.deep_view()),
            Shown::Warnings(panel) => ShownView::Warnings(panel.deep_view()),
            Shown::Summary(rows) => ShownView::Summary(rows.deep_view()),
        }
    }
}

/// One frame.
#[derive(Debug, PartialEq, Eq)]
pub struct Frame {
    pub shown: Shown,
    /// This is the last frame.
    pub quit: bool,
    /// The failed test that is to run again.
    pub retry: Option<String>,
}

/// A [`Frame`] as a mathematical value.
pub struct FrameView {
    pub shown: ShownView,
    pub quit: bool,
    pub retry: Option<Seq<char>>,
}

impl DeepView for Frame {
    type V = FrameView;

    open spec fn deep_view(&self) -> FrameView {
        FrameView {
            shown: self.shown.deep_view(),
            quit: self.quit,
            retry: self.retry.deep_view(),
        }
    }
}

// ---- the terminal ----

/// The columns of a terminal of this size, or a sane guess when it is not known (e.g. not a tty).
pub fn terminal_cols(size: Option<(u16, u16)>) -> (r: usize)
    ensures
        r == match size {
            Some((cols, _)) => cols as int,
            None => 80,
        },
{
    match size {
        Some((cols, _)) => cols as usize,
        None => 80,
    }
}

/// The rows of a terminal of this size, or a sane guess when it is not known (e.g. not a tty).
pub fn terminal_rows(size: Option<(u16, u16)>) -> (r: usize)
    ensures
        r == match size {
            Some((_, rows)) => rows as int,
            None => 24,
        },
{
    match size {
        Some((_, rows)) => rows as usize,
        None => 24,
    }
}

// ---- keys ----

/// `n - k`, zero where that is less.
pub open spec fn down_by(n: usize, k: usize) -> usize {
    if n >= k {
        (n - k) as usize
    } else {
        0
    }
}

/// `n + k`, the largest `usize` where that is more.
pub open spec fn up_by(n: usize, k: usize) -> usize {
    if n + k <= usize::MAX {
        (n + k) as usize
    } else {
        usize::MAX
    }
}

/// The index after `selected` in a list of `len` items, the last one staying where it is.
pub open spec fn next_index(selected: usize, len: nat) -> usize {
    if selected + 1 < len {
        (selected + 1) as usize
    } else {
        (len - 1) as usize
    }
}

/// What a key does to the warning panel: the arrows move to another warning, in short form, and
/// Enter turns the inspection on and off.
pub open spec fn warnings_after(w: WarningsView, key: Key) -> WarningsView {
    match key {
        Key::Up => WarningsView { selected: down_by(w.selected, 1), inspecting: false, ..w },
        Key::Down => WarningsView {
            selected: next_index(w.selected, w.items.len()),
            inspecting: false,
            ..w
        },
        Key::Enter => WarningsView { inspecting: !w.inspecting, ..w },
        _ => w,
    }
}

/// The failed test at `selected` is selected, seen at its tail.
pub open spec fn with_selected(f: FailedTestsView, selected: usize) -> FailedTestsView {
    FailedTestsView { selected, stdout_scroll: tail_at(f.items, selected as int), ..f }
}

/// What a key does to the failed tests. While a row is collapsed, the arrows move which row is
/// selected. Once Enter expands it, the arrows scroll its stdout instead; PageUp and PageDown
/// always scroll.
pub open spec fn failed_after(f: FailedTestsView, key: Key) -> FailedTestsView {
    let at = f.selected as int;
    let scroll = f.stdout_scroll;
    match key {
        Key::Up => if f.expanded[at] {
            FailedTestsView { stdout_scroll: down_by(scroll, 1), ..f }
        } else {
            with_selected(f, down_by(f.selected, 1))
        },
        Key::Down => if f.expanded[at] {
            FailedTestsView { stdout_scroll: up_by(scroll, 1), ..f }
        } else {
            with_selected(f, next_index(f.selected, f.items.len()))
        },
        Key::Enter => with_selected(
            FailedTestsView { expanded: f.expanded.update(at, !f.expanded[at]), ..f },
            f.selected,
        ),
        Key::PageUp => FailedTestsView { stdout_scroll: down_by(scroll, STDOUT_PAGE), ..f },
        Key::PageDown => FailedTestsView { stdout_scroll: up_by(scroll, STDOUT_PAGE), ..f },
        _ => f,
    }
}

// ---- frames ----

/// How long the build has taken: the time at which it was over, or the time so far.
pub open spec fn elapsed_of(s: StateView, now: u64) -> u64 {
    match s.final_elapsed {
        Some(elapsed) => elapsed,
        None => now,
    }
}

/// The build is over, and it went well.
pub open spec fn went_well(s: StateView) -> bool {
    s.build_ok == Some(true)
}

/// The summary of the build.
pub open spec fn summary_rows(s: StateView, now: u64) -> Seq<RowView> {
    summary_of(
        s.project.name,
        went_well(s),
        elapsed_of(s, now),
        s.warnings.items.len(),
        s.project.compiled.len(),
        s.project.grew_by,
    )
}

/// How far the view has settled after one more frame.
pub open spec fn settle_after(s: ScreenView) -> u8 {
    if s.state.build_ok is Some && s.settle < SETTLE_FRAMES {
        (s.settle + 1) as u8
    } else {
        s.settle
    }
}

/// The build is over and the view has settled on that.
pub open spec fn is_settled(s: ScreenView) -> bool {
    s.state.build_ok is Some && s.settle >= SETTLE_FRAMES
}

/// A frame that shows something and does nothing else.
pub open spec fn showing(shown: ShownView, quit: bool) -> FrameView {
    FrameView { shown, quit, retry: None }
}

/// A settled `build` or `run` shows its warnings until they are dismissed.
pub open spec fn warnings_frame(s: ScreenView, key: Option<Key>) -> (ScreenView, FrameView) {
    if key == Some(Key::Esc) {
        (ScreenView { dismissing: true, ..s }, showing(ShownView::Nothing, false))
    } else {
        let warnings = match key {
            Some(key) => warnings_after(s.state.warnings, key),
            None => s.state.warnings,
        };
        (
            ScreenView { state: StateView { warnings, ..s.state }, ..s },
            showing(
                ShownView::Warnings(
                    panel_of(warnings.items, warnings.selected as int, warnings.inspecting),
                ),
                false,
            ),
        )
    }
}

/// The keys are for the failed tests: the tests are over and some have failed.
pub open spec fn browses_failed(s: ScreenView) -> bool {
    s.is_test && is_settled(s) && s.state.failed.items.len() > 0
}

/// The table, after what a key does to the failed tests. A settled test run is over at once where
/// no test failed, and on Esc where some did.
pub open spec fn table_frame(
    s: ScreenView,
    key: Option<Key>,
    now: u64,
    cols: nat,
    term_rows: nat,
) -> (ScreenView, FrameView) {
    let browsed = browses_failed(s) && key is Some;
    let failed = if browsed {
        failed_after(s.state.failed, key->0)
    } else {
        s.state.failed
    };
    let after = ScreenView { state: StateView { failed, ..s.state }, ..s };
    (
        after,
        FrameView {
            shown: ShownView::Table(
                table_of_state(
                    after.state,
                    s.flag_line,
                    is_settled(s),
                    elapsed_of(s.state, now),
                    now,
                    cols,
                    term_rows,
                ),
            ),
            quit: (browsed && key == Some(Key::Esc)) || (s.is_test && is_settled(s)
                && s.state.failed.items.len() == 0),
            retry: if browsed && key == Some(Key::Char('r')) {
                Some(s.state.failed.items[s.state.failed.selected as int].name)
            } else {
                None
            },
        },
    )
}

/// What the next frame makes of the view, and what it shows.
pub open spec fn frame_of(
    s: ScreenView,
    key: Option<Key>,
    now: u64,
    cols: nat,
    term_rows: nat,
) -> (ScreenView, FrameView) {
    let next = ScreenView { settle: settle_after(s), ..s };
    if s.dismissing {
        (s, showing(ShownView::Summary(summary_rows(s.state, now)), true))
    } else if is_settled(next) && !s.is_test {
        if s.state.warnings.items.len() > 0 {
            warnings_frame(next, key)
        } else {
            (next, showing(ShownView::Summary(summary_rows(s.state, now)), true))
        }
    } else {
        table_frame(next, key, now, cols, term_rows)
    }
}

impl Screen {
    /// The view before anything is known.
    pub fn new(is_test: bool, flag_line: String) -> (r: Screen)
        ensures
            r@ == (ScreenView {
                state: crate::state::initial(),
                is_test,
                flag_line: flag_line@,
                settle: 0,
                dismissing: false,
            }),
            well_formed(r@.state),
    {
        Screen { state: State::new(), is_test, flag_line, settle: 0, dismissing: false }
    }

    fn elapsed(&self, now: u64) -> (r: u64)
        ensures
            r == elapsed_of(self@.state, now),
    {
        match self.state.final_elapsed {
            Some(elapsed) => elapsed,
            None => now,
        }
    }

    fn summary(&self, now: u64) -> (r: Frame)
        ensures
            r.deep_view() == showing(ShownView::Summary(summary_rows(self@.state, now)), true),
    {
        let s = &self.state;
        let ok = match s.build_ok {
            Some(ok) => ok,
            None => false,
        };
        assert(s@.warnings.items.len() == s.warnings.items.len());
        let rows = summary_block(
            s.project.name.as_str(),
            ok,
            self.elapsed(now),
            s.warnings.items.len(),
            s.project.compiled.len(),
            s.project.grew_by,
        );
        Frame { shown: Shown::Summary(rows), quit: true, retry: None }
    }

    fn warnings_key(&mut self, key: Key)
        requires
            old(self)@.state.warnings.items.len() > 0,
            well_formed(old(self)@.state),
        ensures
            final(self)@ == (ScreenView {
                state: StateView {
                    warnings: warnings_after(old(self)@.state.warnings, key),
                    ..old(self)@.state
                },
                ..old(self)@
            }),
            well_formed(final(self)@.state),
    {
        let w = &mut self.state.warnings;
        assert(w@.items.len() == w.items.len());
        match key {
            Key::Up => {
                w.selected = w.selected.saturating_sub(1);
                w.inspecting = false;
            },
            Key::Down => {
                w.selected = if w.selected + 1 < w.items.len() {
                    w.selected + 1
                } else {
                    w.items.len() - 1
                };
                w.inspecting = false;
            },
            Key::Enter => {
                w.inspecting = !w.inspecting;
            },
            _ => {},
        }
    }

    fn failed_key(&mut self, key: Key)
        requires
            old(self)@.state.failed.items.len() > 0,
            well_formed(old(self)@.state),
        ensures
            final(self)@ == (ScreenView {
                state: StateView {
                    failed: failed_after(old(self)@.state.failed, key),
                    ..old(self)@.state
                },
                ..old(self)@
            }),
            well_formed(final(self)@.state),
    {
        let f = &mut self.state.failed;
        assert(f@.items.len() == f.items.len());
        let expanded = f.expanded[f.selected];
        match key {
            Key::Up => {
                if expanded {
                    f.stdout_scroll = f.stdout_scroll.saturating_sub(1);
                } else {
                    f.selected = f.selected.saturating_sub(1);
                    f.stdout_scroll = f.selected_tail();
                }
            },
            Key::Down => {
                if expanded {
                    f.stdout_scroll = f.stdout_scroll.saturating_add(1);
                } else {
                    f.selected = if f.selected + 1 < f.items.len() {
                        f.selected + 1
                    } else {
                        f.items.len() - 1
                    };
                    f.stdout_scroll = f.selected_tail();
                }
            },
            Key::Enter => {
                let at: usize = f.selected;
                f.expanded[at] = !expanded;
                f.stdout_scroll = f.selected_tail();
            },
            Key::PageUp => {
                f.stdout_scroll = f.stdout_scroll.saturating_sub(STDOUT_PAGE);
            },
            Key::PageDown => {
                f.stdout_scroll = f.stdout_scroll.saturating_add(STDOUT_PAGE);
            },
            _ => {},
        }
    }

    fn warnings_view(&mut self, key: Option<Key>) -> (r: Frame)
        requires
            old(self)@.state.warnings.items.len() > 0,
            well_formed(old(self)@.state),
        ensures
            (final(self)@, r.deep_view()) == warnings_frame(old(self)@, key),
            well_formed(final(self)@.state),
    {
        if let Some(key) = key {
            match key {
                Key::Esc => {
                    self.dismissing = true;
                    return Frame { shown: Shown::Nothing, quit: false, retry: None };
                },
                _ => {
                    self.warnings_key(key);
                },
            }
        }
        let w = &self.state.warnings;
        assert(w@.items.len() == w.items.len());
        let panel = warning_panel(&w.items, w.selected, w.inspecting);
        Frame { shown: Shown::Warnings(panel), quit: false, retry: None }
    }

    fn table_view(
        &mut self,
        key: Option<Key>,
        settled: bool,
        now: u64,
        cols: usize,
        term_rows: usize,
    ) -> (r: Frame)
        requires
            settled == is_settled(old(self)@),
            well_formed(old(self)@.state),
        ensures
            (final(self)@, r.deep_view()) == table_frame(
                old(self)@,
                key,
                now,
                cols as nat,
                term_rows as nat,
            ),
            well_formed(final(self)@.state),
    {
        let ghost before = self@;
        let mut quit = false;
        let mut retry: Option<String> = None;
        assert(self@.state.failed.items.len() == self.state.failed.items.len());
        if self.is_test && settled {
            if self.state.failed.items.len() == 0 {
                quit = true;
            } else if let Some(key) = key {
                match key {
                    Key::Esc => {
                        quit = true;
                    },
                    Key::Char(c) => {
                        if c == 'r' {
                            let selected: usize = self.state.failed.selected;
                            assert(before.state.failed.items[selected as int]
                                == self.state.failed.items[selected as int].deep_view());
                            retry = Some(self.state.failed.items[selected].name.clone());
                        }
                    },
                    _ => {
                        self.failed_key(key);
                    },
                }
            }
        }
        let rows = table(
            &self.state,
            self.flag_line.as_str(),
            settled,
            self.elapsed(now),
            now,
            cols,
            term_rows,
        );
        Frame { shown: Shown::Table(rows), quit, retry }
    }

    /// Draws the next frame at `now`, in nanoseconds since the start, on a terminal of `cols`
    /// columns and `term_rows` rows. `key` is the key that was pressed since the last one.
    pub fn frame(
        &mut self,
        key: Option<Key>,
        now: u64,
        cols: usize,
        term_rows: usize,
    ) -> (r: Frame)
        requires
            well_formed(old(self)@.state),
        ensures
            (final(self)@, r.deep_view()) == frame_of(
                old(self)@,
                key,
                now,
                cols as nat,
                term_rows as nat,
            ),
            well_formed(final(self)@.state),
    {
        if self.dismissing {
            return self.summary(now);
        }
        let over = self.state.build_ok.is_some();
        if over && self.settle < SETTLE_FRAMES {
            self.settle = self.settle + 1;
        }
        let settled = over && self.settle >= SETTLE_FRAMES;
        assert(self@.state.warnings.items.len() == self.state.warnings.items.len());
        if settled && !self.is_test {
            if self.state.warnings.items.len() > 0 {
                return self.warnings_view(key);
            }
            return self.summary(now);
        }
        self.table_view(key, settled, now, cols, term_rows)
    }
}

// ---- what holds of every frame ----

/// Every frame keeps what is selected in range.
pub proof fn law_frames_keep_selection_in_range(
    s: ScreenView,
    key: Option<Key>,
    now: u64,
    cols: nat,
    term_rows: nat,
)
    requires
        well_formed(s.state),
    ensures
        well_formed(frame_of(s, key, now, cols, term_rows).0.state),
{
}

/// The view after `n` frames without a key.
pub open spec fn after_frames(s: ScreenView, n: nat, now: u64, cols: nat, term_rows: nat) -> ScreenView
    decreases n,
{
    if n == 0 {
        s
    } else {
        frame_of(
            after_frames(s, (n - 1) as nat, now, cols, term_rows),
            None,
            now,
            cols,
            term_rows,
        ).0
    }
}

/// A test run that is over settles with its frame number [`SETTLE_FRAMES`], not before, and stays
/// settled.
pub proof fn law_tests_settle_in_time(s: ScreenView, n: nat, now: u64, cols: nat, term_rows: nat)
    requires
        s.state.build_ok is Some,
        s.settle == 0,
        s.is_test,
        !s.dismissing,
    ensures
        after_frames(s, n, now, cols, term_rows).settle == if n < SETTLE_FRAMES {
            n
        } else {
            SETTLE_FRAMES as nat
        },
        is_settled(after_frames(s, n, now, cols, term_rows)) <==> n >= SETTLE_FRAMES,
        after_frames(s, n, now, cols, term_rows).is_test,
        !after_frames(s, n, now, cols, term_rows).dismissing,
        after_frames(s, n, now, cols, term_rows).state == s.state,
    decreases n,
{
    if n > 0 {
        law_tests_settle_in_time(s, (n - 1) as nat, now, cols, term_rows);
        let before = after_frames(s, (n - 1) as nat, now, cols, term_rows);
        let after = after_frames(s, n, now, cols, term_rows);
        assert(after.state == before.state);
    }
}

/// A dismissed panel gives way to nothing, and the frame after that is the summary and the last
/// one.
pub proof fn law_dismissing_ends_in_the_summary(
    s: ScreenView,
    key: Option<Key>,
    now: u64,
    later: u64,
    cols: nat,
    term_rows: nat,
)
    requires
        !s.dismissing,
        !s.is_test,
        s.settle == SETTLE_FRAMES,
        s.state.build_ok is Some,
        s.state.warnings.items.len() > 0,
    ensures
        ({
            let (next, frame) = frame_of(s, Some(Key::Esc), now, cols, term_rows);
            let (_, last) = frame_of(next, key, later, cols, term_rows);
            &&& frame == showing(ShownView::Nothing, false)
            &&& last == showing(ShownView::Summary(summary_rows(s.state, later)), true)
        }),
{
}

/// As long as a failed test is listed, the view of a test run closes on Esc alone.
pub proof fn law_failures_wait_for_esc(
    s: ScreenView,
    key: Option<Key>,
    now: u64,
    cols: nat,
    term_rows: nat,
)
    requires
        s.is_test,
        !s.dismissing,
        s.state.failed.items.len() > 0,
        key != Some(Key::Esc),
    ensures
        !frame_of(s, key, now, cols, term_rows).1.quit,
{
}

/// A run that has not settled closes on no key.
pub proof fn law_unsettled_view_stays(
    s: ScreenView,
    key: Option<Key>,
    now: u64,
    cols: nat,
    term_rows: nat,
)
    requires
        !s.dismissing,
        s.state.build_ok is None,
    ensures
        !frame_of(s, key, now, cols, term_rows).1.quit,
        frame_of(s, key, now, cols, term_rows).0 == s,
{
}

/// Once the build is over, the time that is shown stands still.
pub proof fn law_clock_stands_still(s: StateView, elapsed: u64, now: u64, later: u64)
    requires
        s.final_elapsed == Some(elapsed),
    ensures
        elapsed_of(s, now) == elapsed,
        elapsed_of(s, now) == elapsed_of(s, later),
{
}

/// Enter twice leaves the same tests expanded, and the same one selected.
pub proof fn law_enter_undoes_enter(f: FailedTestsView)
    requires
        f.selected < f.items.len(),
        f.expanded.len() == f.items.len(),
    ensures
        failed_after(failed_after(f, Key::Enter), Key::Enter) == (FailedTestsView {
            stdout_scroll: tail_at(f.items, f.selected as int),
            ..f
        }),
{
    let once = failed_after(f, Key::Enter);
    assert(failed_after(once, Key::Enter).expanded =~= f.expanded);
}

/// No key changes which tests are listed, and none but the arrows which one is selected.
pub proof fn law_keys_keep_the_list(f: FailedTestsView, key: Key)
    ensures
        failed_after(f, key).items == f.items,
        key != Key::Up && key != Key::Down ==> failed_after(f, key).selected == f.selected,
{
}

/// While the selected test is expanded, the arrows scroll and leave the selection alone; while it is
/// not, they move the selection by one and stop at either end.
pub proof fn law_arrows_scroll_or_select(f: FailedTestsView)
    requires
        f.selected < f.items.len(),
        f.items.len() <= usize::MAX,
        f.expanded.len() == f.items.len(),
    ensures
        f.expanded[f.selected as int] ==> {
            &&& failed_after(f, Key::Up).selected == f.selected
            &&& failed_after(f, Key::Down).selected == f.selected
        },
        !f.expanded[f.selected as int] ==> {
            &&& failed_after(f, Key::Up).selected == down_by(f.selected, 1)
            &&& failed_after(f, Key::Down).selected == if f.selected + 1 < f.items.len() {
                f.selected + 1
            } else {
                f.selected as int
            }
        },
{
}

// ---- what the user sees, and what each key does ----

/// The view is over the failed tests of a test run: the build is over, this frame or an earlier one
/// is the eighth since then, and some test has failed.
pub open spec fn over_failed_tests(s: ScreenView) -> bool {
    &&& s.is_test
    &&& !s.dismissing
    &&& s.state.build_ok is Some
    &&& s.settle >= 7
    &&& s.state.failed.items.len() > 0
}

/// The view is over the warnings of a build: it is over, this frame or an earlier one is the eighth
/// since then, and there is a warning that was not dismissed.
pub open spec fn over_warnings(s: ScreenView) -> bool {
    &&& !s.is_test
    &&& !s.dismissing
    &&& s.state.build_ok is Some
    &&& s.settle >= 7
    &&& s.state.warnings.items.len() > 0
}

/// The build is over and its summary is due: the warnings were dismissed, or this frame or an earlier
/// one is the eighth since then and there are none.
pub open spec fn over_summary(s: ScreenView) -> bool {
    s.dismissing || (!s.is_test && s.state.build_ok is Some && s.settle >= 7
        && s.state.warnings.items.len() == 0)
}

/// The summary is that of the build: it succeeded exactly where the last `Done` said so, after the
/// time at which that came, with as many warnings as were reported, as many libs as were compiled
/// and as much disk as it grew by. It is the last frame.
pub proof fn law_summary_is_that_of_the_build(
    s: ScreenView,
    key: Option<Key>,
    now: u64,
    cols: nat,
    term_rows: nat,
)
    requires
        over_summary(s),
    ensures
        ({
            let frame = frame_of(s, key, now, cols, term_rows).1;
            &&& frame.quit
            &&& frame.retry is None
            &&& s.state.build_ok == Some(true) ==> frame.shown == ShownView::Summary(
                summary_of(
                    s.state.project.name,
                    true,
                    match s.state.final_elapsed {
                        Some(elapsed) => elapsed,
                        None => now,
                    },
                    s.state.warnings.items.len(),
                    s.state.project.compiled.len(),
                    s.state.project.grew_by,
                ),
            )
            &&& s.state.build_ok != Some(true) ==> frame.shown == ShownView::Summary(
                summary_of(
                    s.state.project.name,
                    false,
                    match s.state.final_elapsed {
                        Some(elapsed) => elapsed,
                        None => now,
                    },
                    s.state.warnings.items.len(),
                    s.state.project.compiled.len(),
                    s.state.project.grew_by,
                ),
            )
            &&& frame_of(s, key, now, cols, term_rows).0.state == s.state
        }),
{
}

/// A build that failed is never announced as a success, nor one that succeeded as a failure: the
/// first row of the summary says `built in` exactly after `Done(true)`, and `failed after` otherwise,
/// with the project's name.
pub proof fn law_failed_build_is_announced_as_failed(
    s: ScreenView,
    ok: bool,
    end: u64,
    disk: u64,
    now: u64,
    cols: nat,
    term_rows: nat,
)
    requires
        !s.is_test,
        !s.dismissing,
        s.settle >= 7,
        s.state.warnings.items.len() == 0,
    ensures
        ({
            let done = ScreenView {
                state: crate::state::applied(
                    s.state,
                    crate::events::EventView::Done(ok),
                    end,
                    disk,
                ),
                ..s
            };
            let shown = frame_of(done, None, now, cols, term_rows).1.shown;
            let name = s.state.project.name;
            &&& shown is Summary
            &&& shown->Summary_0.len() == 3
            &&& shown->Summary_0[0].cells.len() == 2
            &&& ok ==> {
                &&& shown->Summary_0[0].cells[0] == (CellView::Text {
                    text: "✓ "@ + name + " built in "@,
                    look: Look::GreenBold,
                })
                &&& shown->Summary_0[0].cells[1] == (CellView::Elapsed {
                    nanos: end,
                    look: Look::GreenBold,
                })
            }
            &&& !ok ==> {
                &&& shown->Summary_0[0].cells[0] == (CellView::Text {
                    text: "✗ "@ + name + " failed after "@,
                    look: Look::RedBold,
                })
                &&& shown->Summary_0[0].cells[1] == (CellView::Elapsed {
                    nanos: end,
                    look: Look::RedBold,
                })
            }
        }),
{
}

/// What each key does to the failed tests. The arrows move from one collapsed test to the next, and
/// scroll an expanded one by a row; the page keys scroll by twenty rows. Enter expands or collapses
/// the selected test, and leaves every other one as it was; no other key expands or collapses any.
pub proof fn law_keys_browse_the_failed_tests(
    s: ScreenView,
    key: Key,
    now: u64,
    cols: nat,
    term_rows: nat,
)
    requires
        over_failed_tests(s),
        well_formed(s.state),
        s.state.failed.items.len() <= usize::MAX,
    ensures
        ({
            let f = s.state.failed;
            let g = frame_of(s, Some(key), now, cols, term_rows).0.state.failed;
            let open = f.expanded[f.selected as int];
            let last = f.items.len() - 1;
            &&& g.items == f.items
            &&& g.expanded.len() == f.expanded.len()
            &&& forall|i: int|
                0 <= i < f.expanded.len() ==> #[trigger] g.expanded[i] == if key == Key::Enter && i
                    == f.selected {
                    !f.expanded[i]
                } else {
                    f.expanded[i]
                }
            &&& key == Key::Up && !open ==> g.selected == if f.selected > 0 {
                f.selected - 1
            } else {
                0
            }
            &&& key == Key::Down && !open ==> g.selected == if f.selected < last {
                f.selected + 1
            } else {
                last
            }
            &&& open || !(key == Key::Up || key == Key::Down) ==> g.selected == f.selected
            &&& key == Key::Enter || (!open && (key == Key::Up || key == Key::Down))
                ==> g.stdout_scroll == (if lines_of(f.items[g.selected as int].stdout).len() > 20 {
                lines_of(f.items[g.selected as int].stdout).len() - 20
            } else {
                0
            }) as usize
            &&& key == Key::Up && open ==> g.stdout_scroll == if f.stdout_scroll > 0 {
                f.stdout_scroll - 1
            } else {
                0
            }
            &&& key == Key::Down && open ==> g.stdout_scroll == if f.stdout_scroll < usize::MAX {
                f.stdout_scroll + 1
            } else {
                usize::MAX as int
            }
            &&& key == Key::PageUp ==> g.stdout_scroll == if f.stdout_scroll > 20 {
                f.stdout_scroll - 20
            } else {
                0
            }
            &&& key == Key::PageDown ==> g.stdout_scroll == if f.stdout_scroll + 20 < usize::MAX {
                f.stdout_scroll + 20
            } else {
                usize::MAX as int
            }
            &&& key == Key::Esc || key == Key::Other || key is Char ==> g == f
        }),
{
    let f = s.state.failed;
    let g = frame_of(s, Some(key), now, cols, term_rows).0.state.failed;
    if key == Key::Esc || key == Key::Other || key is Char {
        assert(g =~= f);
    }
}

/// What each key does to the warnings: the arrows move to the next one, in short form, stopping at
/// either end, and Enter alone turns the inspection of the selected one on and off. Esc, and nothing
/// else, dismisses the panel.
pub proof fn law_keys_browse_the_warnings(
    s: ScreenView,
    key: Key,
    now: u64,
    cols: nat,
    term_rows: nat,
)
    requires
        over_warnings(s),
        well_formed(s.state),
        s.state.warnings.items.len() <= usize::MAX,
    ensures
        ({
            let w = s.state.warnings;
            let (next, frame) = frame_of(s, Some(key), now, cols, term_rows);
            let v = next.state.warnings;
            let last = w.items.len() - 1;
            &&& v.items == w.items
            &&& key == Key::Up ==> !v.inspecting && v.selected == if w.selected > 0 {
                w.selected - 1
            } else {
                0
            }
            &&& key == Key::Down ==> !v.inspecting && v.selected == if w.selected < last {
                w.selected + 1
            } else {
                last
            }
            &&& key == Key::Enter ==> v.inspecting == !w.inspecting && v.selected == w.selected
            &&& !(key == Key::Up || key == Key::Down || key == Key::Enter) ==> v == w
            &&& next.dismissing == (key == Key::Esc)
            &&& !frame.quit
            &&& frame.retry is None
            &&& key == Key::Esc ==> frame.shown is Nothing
            &&& key != Key::Esc ==> frame.shown == ShownView::Warnings(
                panel_of(v.items, v.selected as int, v.inspecting),
            )
        }),
{
}

/// Without a key nothing is picked, scrolled, expanded or dismissed.
pub proof fn law_nothing_moves_without_a_key(
    s: ScreenView,
    now: u64,
    cols: nat,
    term_rows: nat,
)
    ensures
        ({
            let (next, frame) = frame_of(s, None, now, cols, term_rows);
            &&& next.state == s.state
            &&& next.dismissing == s.dismissing
            &&& next.is_test == s.is_test
            &&& next.flag_line == s.flag_line
            &&& frame.retry is None
        }),
{
}

/// A frame shows the summary, the warnings or the table, as the state of the build says, and closes
/// the view with the summary, with a settled test run that has no failed test, or on Esc over the
/// failed tests. Only the eighth frame after the end settles it.
pub proof fn law_frame_shows_what_is_due(
    s: ScreenView,
    key: Option<Key>,
    now: u64,
    cols: nat,
    term_rows: nat,
)
    ensures
        ({
            let (next, frame) = frame_of(s, key, now, cols, term_rows);
            &&& frame.shown is Summary <==> over_summary(s)
            &&& frame.shown is Warnings <==> over_warnings(s) && key != Some(Key::Esc)
            &&& frame.shown is Nothing <==> over_warnings(s) && key == Some(Key::Esc)
            &&& frame.shown is Table <==> !over_summary(s) && !over_warnings(s)
            &&& frame.quit <==> {
                ||| over_summary(s)
                ||| over_failed_tests(s) && key == Some(Key::Esc)
                ||| s.is_test && s.state.build_ok is Some && s.settle >= 7
                    && s.state.failed.items.len() == 0
            }
            &&& next.settle == if !s.dismissing && s.state.build_ok is Some && s.settle < 8 {
                s.settle + 1
            } else {
                s.settle as int
            }
        }),
{
}

/// `r` over the failed tests, and nothing else, reruns a test, and that is the selected one.
pub proof fn law_r_reruns_the_selected_test(
    s: ScreenView,
    key: Option<Key>,
    now: u64,
    cols: nat,
    term_rows: nat,
)
    ensures
        ({
            let frame = frame_of(s, key, now, cols, term_rows).1;
            &&& frame.retry is Some <==> over_failed_tests(s) && key == Some(Key::Char('r'))
            &&& frame.retry is Some ==> frame.retry == Some(
                s.state.failed.items[s.state.failed.selected as int].name,
            )
        }),
{
}

/// The table that a frame shows is that of the state after the key: its header is the command, its
/// clock that of the build, and it offers to browse the failed tests once the view has settled.
pub proof fn law_frame_shows_the_table_of_its_state(
    s: ScreenView,
    key: Option<Key>,
    now: u64,
    cols: nat,
    term_rows: nat,
)
    requires
        !over_summary(s),
        !over_warnings(s),
    ensures
        ({
            let (next, frame) = frame_of(s, key, now, cols, term_rows);
            frame.shown == ShownView::Table(
                table_of_state(
                    next.state,
                    s.flag_line,
                    s.state.build_ok is Some && s.settle >= 7,
                    match s.state.final_elapsed {
                        Some(elapsed) => elapsed,
                        None => now,
                    },
                    now,
                    cols,
                    term_rows,
                ),
            )
        }),
{
}

} // verus!
