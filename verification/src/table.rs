//! The live table: what is running, what is done, how far it has come, and which tests failed.

use crate::events::{FailedTest, FailedTestView, Took};
use crate::names::entry_or;
use crate::state::{minus, ProjectView, RunningView, State, StateView};
use crate::stdout::{classified, styled_rows, wrapped_styled, StdoutStyle, StyledText};
use crate::text::{decimal, lines_of, pad_right, padded, print_decimal, same_text};
use crate::ui::{
    blank_line, cell, empty_line, line, push_row, reads, row_of, row_of_three, row_of_two, text_line, word,
    BarLook, Cell, CellView, Look, Row, RowView,
};
use vstd::prelude::*;
use vstd::string::*;

verus! {

/// How many running entries are shown.
pub const BUILDING_ROWS: usize = 6;

/// How many finished entries are shown.
pub const DONE_ROWS: usize = 6;

/// How many failed tests are shown at once.
pub const FAILED_ROWS: usize = 6;

/// The width of the name column.
pub const NAME_WIDTH: usize = 32;

/// The width of the column in front of the bar.
pub const LABEL_WIDTH: usize = 14;

/// Right-hand breathing room for wrapped stdout lines, so captured output stops just short of the
/// terminal edge instead of spanning the full width.
pub const STDOUT_RIGHT_PADDING: usize = 4;

// ---- running and done ----

/// A crate with its version, where that is known.
pub open spec fn with_version(p: ProjectView, name: Seq<char>) -> Seq<char> {
    name + " "@ + entry_or(p.versions, name, Seq::empty())
}

/// How a running entry is called.
pub open spec fn running_label(s: StateView, entry: RunningView) -> Seq<char> {
    if s.progress.testing {
        entry.name
    } else if entry.script {
        "build("@ + entry.name + ") "@ + entry_or(s.project.versions, entry.name, Seq::empty())
    } else {
        with_version(s.project, entry.name)
    }
}

/// How a finished entry is called.
pub open spec fn done_label(s: StateView, name: Seq<char>) -> Seq<char> {
    if s.progress.testing {
        name
    } else {
        with_version(s.project, name)
    }
}

/// The smaller of two.
pub open spec fn least(a: nat, b: nat) -> nat {
    if a < b {
        a
    } else {
        b
    }
}

/// The larger of two.
pub open spec fn most(a: nat, b: nat) -> nat {
    if a < b {
        b
    } else {
        a
    }
}

/// The row at `i` of the running entries, at `now`. Rows without an entry are empty, so nothing
/// below reflows as jobs start and finish.
pub open spec fn building_row(s: StateView, i: int, now: u64) -> RowView {
    let building = s.progress.building;
    if i < building.len() {
        let entry = building[i];
        RowView {
            cells: seq![
                word("● "@, Look::Yellow),
                word(
                    padded(running_label(s, entry), NAME_WIDTH as nat),
                    if entry.name == s.project.name {
                        Look::Sapphire
                    } else {
                        Look::Text
                    },
                ),
                CellView::Clock {
                    took: Took::Nanos(minus(now, entry.started)),
                    look: Look::Subtext,
                },
            ],
            fade: Some(((i + 1) as usize, least(building.len(), BUILDING_ROWS as nat) as usize)),
        }
    } else if i == 0 {
        line("  …"@, Look::Dim)
    } else {
        empty_line()
    }
}

/// The rows of the running entries.
pub open spec fn building_rows(s: StateView, now: u64) -> Seq<RowView> {
    Seq::new(BUILDING_ROWS as nat, |i: int| building_row(s, i, now))
}

/// The row at `i` of the finished entries: the latest ones in the order in which they finished,
/// the last one at the bottom, under empty rows for those that are missing.
pub open spec fn done_row(s: StateView, i: int) -> RowView {
    let done = s.progress.done;
    let recent = least(done.len(), DONE_ROWS as nat);
    let k = i - (DONE_ROWS - recent);
    if k < 0 {
        empty_line()
    } else {
        let entry = done[done.len() - recent + k];
        RowView {
            cells: seq![
                word("✓ "@, Look::Green),
                word(padded(done_label(s, entry.name), NAME_WIDTH as nat), Look::Text),
                CellView::Clock { took: entry.took, look: Look::Subtext },
            ],
            fade: Some(((k + 1) as usize, recent as usize)),
        }
    }
}

/// The rows of the finished entries.
pub open spec fn done_rows(s: StateView) -> Seq<RowView> {
    Seq::new(DONE_ROWS as nat, |i: int| done_row(s, i))
}

/// The rows above the running entries.
pub open spec fn head_rows(s: StateView, flag_line: Seq<char>) -> Seq<RowView> {
    seq![
        line(flag_line, Look::Dim),
        RowView { cells: seq![CellView::Rule], fade: None },
        line(
            if s.progress.testing {
                "Running"@
            } else {
                "Compiling"@
            },
            Look::Dim,
        ),
    ]
}

/// The rows between the running and the finished entries.
pub open spec fn count_rows(s: StateView) -> Seq<RowView> {
    seq![
        RowView { cells: seq![CellView::Rule], fade: None },
        line(
            (if s.progress.testing {
                "Tests"@
            } else {
                "Compiled"@
            }) + " ("@ + decimal(s.progress.seen as nat) + "/"@ + decimal(s.progress.total as nat)
                + ")"@,
            Look::Dim,
        ),
    ]
}

/// How the bar looks.
pub open spec fn bar_fill(s: StateView, settled: bool) -> BarLook {
    if !settled {
        BarLook::Moving
    } else if s.failed.items.len() == 0 {
        BarLook::Passed
    } else {
        BarLook::Failed
    }
}

/// The rows below the finished entries: the bar and the clock.
pub open spec fn bar_rows(s: StateView, settled: bool, elapsed: u64) -> Seq<RowView> {
    seq![
        empty_line(),
        RowView {
            cells: seq![
                word(
                    padded(
                        if s.progress.testing {
                            "Progress"@
                        } else {
                            "Build"@
                        },
                        LABEL_WIDTH as nat,
                    ),
                    Look::Dim,
                ),
                CellView::Bar {
                    seen: s.progress.seen,
                    total: s.progress.total,
                    fill: bar_fill(s, settled),
                },
                CellView::Percent { seen: s.progress.seen, total: s.progress.total },
            ],
            fade: None,
        },
        RowView {
            cells: seq![
                word(padded("Elapsed"@, LABEL_WIDTH as nat), Look::Dim),
                CellView::Elapsed { nanos: elapsed, look: Look::Plain },
            ],
            fade: None,
        },
    ]
}

/// The part of the table that is always there.
pub open spec fn progress_rows(
    s: StateView,
    flag_line: Seq<char>,
    settled: bool,
    elapsed: u64,
    now: u64,
) -> Seq<RowView> {
    head_rows(s, flag_line) + building_rows(s, now) + count_rows(s) + done_rows(s) + bar_rows(
        s,
        settled,
        elapsed,
    )
}

fn version_of<'a>(state: &'a State, name: &str) -> (r: &'a str)
    ensures
        r@ == entry_or(state@.project.versions, name@, Seq::empty()),
{
    match state.project.versions.get(name) {
        Some(version) => version.as_str(),
        None => {
            let none = "";
            proof {
                reveal_strlit("");
                assert(none@ =~= Seq::<char>::empty());
            }
            none
        },
    }
}

fn versioned(state: &State, name: &str) -> (r: String)
    ensures
        r@ == with_version(state@.project, name@),
{
    let mut out = name.to_owned();
    out.append(" ");
    out.append(version_of(state, name));
    out
}

fn push_building(rows: &mut Vec<Row>, state: &State, now: u64)
    ensures
        final(rows).deep_view() == old(rows).deep_view() + building_rows(state@, now),
{
    let ghost before = rows.deep_view();
    let ghost all = state@.progress.building;
    assert(all.len() == state.progress.building.len());
    let len: usize = state.progress.building.len();
    let shown: usize = if len < BUILDING_ROWS {
        len
    } else {
        BUILDING_ROWS
    };
    let mut i: usize = 0;
    assert(rows.deep_view() =~= before + building_rows(state@, now).take(0));
    while i < BUILDING_ROWS
        invariant
            i <= BUILDING_ROWS,
            all == state@.progress.building,
            len == state.progress.building.len(),
            len == all.len(),
            shown == least(all.len(), BUILDING_ROWS as nat),
            rows.deep_view() == before + building_rows(state@, now).take(i as int),
        decreases BUILDING_ROWS - i,
    {
        let row = if i < len {
            let entry = &state.progress.building[i];
            let name = entry.name.as_str();
            assert(all[i as int] == entry.deep_view());
            let label = if state.progress.testing {
                name.to_owned()
            } else if entry.script {
                let mut out = "build(".to_owned();
                out.append(name);
                out.append(") ");
                out.append(version_of(state, name));
                out
            } else {
                versioned(state, name)
            };
            let look = if same_text(name, state.project.name.as_str()) {
                Look::Sapphire
            } else {
                Look::Text
            };
            row_of_three(
                cell("● ".to_owned(), Look::Yellow),
                cell(pad_right(label.as_str(), NAME_WIDTH), look),
                Cell::Clock {
                    took: Took::Nanos(now.saturating_sub(entry.started)),
                    look: Look::Subtext,
                },
                Some((i + 1, shown)),
            )
        } else if i == 0 {
            text_line("  …".to_owned(), Look::Dim)
        } else {
            blank_line()
        };
        assert(row.deep_view() == building_row(state@, i as int, now));
        push_row(rows, row);
        proof {
            let expected = building_rows(state@, now);
            assert(expected.take(i + 1) =~= expected.take(i as int).push(expected[i as int]));
            assert(rows.deep_view() =~= before + expected.take(i + 1));
        }
        i = i + 1;
    }
    assert(building_rows(state@, now).take(i as int) =~= building_rows(state@, now));
}

fn push_done(rows: &mut Vec<Row>, state: &State)
    ensures
        final(rows).deep_view() == old(rows).deep_view() + done_rows(state@),
{
    let ghost before = rows.deep_view();
    let ghost all = state@.progress.done;
    assert(all.len() == state.progress.done.len());
    let len: usize = state.progress.done.len();
    let recent: usize = if len < DONE_ROWS {
        len
    } else {
        DONE_ROWS
    };
    let mut i: usize = 0;
    assert(rows.deep_view() =~= before + done_rows(state@).take(0));
    while i < DONE_ROWS
        invariant
            i <= DONE_ROWS,
            all == state@.progress.done,
            len == state.progress.done.len(),
            len == all.len(),
            recent == least(all.len(), DONE_ROWS as nat),
            rows.deep_view() == before + done_rows(state@).take(i as int),
        decreases DONE_ROWS - i,
    {
        let missing: usize = DONE_ROWS - recent;
        let row = if i < missing {
            blank_line()
        } else {
            let k: usize = i - missing;
            let entry = &state.progress.done[len - recent + k];
            assert(all[len - recent + k] == entry.deep_view());
            let name = entry.name.as_str();
            let label = if state.progress.testing {
                name.to_owned()
            } else {
                versioned(state, name)
            };
            row_of_three(
                cell("✓ ".to_owned(), Look::Green),
                cell(pad_right(label.as_str(), NAME_WIDTH), Look::Text),
                Cell::Clock { took: entry.took, look: Look::Subtext },
                Some((k + 1, recent)),
            )
        };
        assert(row.deep_view() == done_row(state@, i as int));
        push_row(rows, row);
        proof {
            let expected = done_rows(state@);
            assert(expected.take(i + 1) =~= expected.take(i as int).push(expected[i as int]));
            assert(rows.deep_view() =~= before + expected.take(i + 1));
        }
        i = i + 1;
    }
    assert(done_rows(state@).take(i as int) =~= done_rows(state@));
}

fn push_head(rows: &mut Vec<Row>, state: &State, flag_line: &str)
    ensures
        final(rows).deep_view() == old(rows).deep_view() + head_rows(state@, flag_line@),
{
    let label = if state.progress.testing {
        "Running"
    } else {
        "Compiling"
    };
    push_row(rows, text_line(flag_line.to_owned(), Look::Dim));
    push_row(rows, row_of(Cell::Rule));
    push_row(rows, text_line(label.to_owned(), Look::Dim));
    assert(rows.deep_view() =~= old(rows).deep_view() + head_rows(state@, flag_line@));
}

fn push_count(rows: &mut Vec<Row>, state: &State)
    ensures
        final(rows).deep_view() == old(rows).deep_view() + count_rows(state@),
{
    let mut text = if state.progress.testing {
        "Tests".to_owned()
    } else {
        "Compiled".to_owned()
    };
    text.append(" (");
    text.append(print_decimal(state.progress.seen as u64).as_str());
    text.append("/");
    text.append(print_decimal(state.progress.total as u64).as_str());
    text.append(")");
    push_row(rows, row_of(Cell::Rule));
    push_row(rows, text_line(text, Look::Dim));
    assert(rows.deep_view() =~= old(rows).deep_view() + count_rows(state@));
}

fn push_bar(rows: &mut Vec<Row>, state: &State, settled: bool, elapsed: u64)
    ensures
        final(rows).deep_view() == old(rows).deep_view() + bar_rows(state@, settled, elapsed),
{
    assert(state@.failed.items.len() == state.failed.items.len());
    let fill = if !settled {
        BarLook::Moving
    } else if state.failed.items.len() == 0 {
        BarLook::Passed
    } else {
        BarLook::Failed
    };
    let label = if state.progress.testing {
        "Progress"
    } else {
        "Build"
    };
    let seen = state.progress.seen;
    let total = state.progress.total;
    push_row(rows, blank_line());
    push_row(
        rows,
        row_of_three(
            cell(pad_right(label, LABEL_WIDTH), Look::Dim),
            Cell::Bar { seen, total, fill },
            Cell::Percent { seen, total },
            None,
        ),
    );
    push_row(
        rows,
        row_of_two(
            cell(pad_right("Elapsed", LABEL_WIDTH), Look::Dim),
            Cell::Elapsed { nanos: elapsed, look: Look::Plain },
        ),
    );
    assert(rows.deep_view() =~= old(rows).deep_view() + bar_rows(state@, settled, elapsed));
}

// ---- failed tests ----

/// `a - b`, zero where that is less.
pub open spec fn less(a: nat, b: nat) -> nat {
    if a >= b {
        (a - b) as nat
    } else {
        0
    }
}

/// How many characters of a stdout line fit on a terminal of `cols` columns.
pub open spec fn stdout_width(cols: nat) -> nat {
    most(less(cols, 2 + STDOUT_RIGHT_PADDING as nat), 1)
}

/// How many rows of stdout fit on a terminal of `term_rows` rows under `above` of them, three at
/// least.
pub open spec fn stdout_budget(term_rows: nat, above: nat) -> nat {
    most(less(less(term_rows, above), 2), 3)
}

/// The first row that is shown of `len`, `budget` of which fit, where `wanted` rows are to be
/// scrolled past: never so many that the end comes early.
pub open spec fn scroll_top(len: nat, budget: nat, wanted: nat) -> nat {
    least(wanted, less(len, budget))
}

/// Where the rows that are shown end.
pub open spec fn scroll_end(len: nat, budget: nat, wanted: nat) -> nat {
    least(scroll_top(len, budget, wanted) + budget, len)
}

/// How a stdout row of this style looks.
pub open spec fn style_look(style: StdoutStyle) -> Look {
    match style {
        StdoutStyle::Plain => Look::Plain,
        StdoutStyle::Message => Look::Bold,
        StdoutStyle::Left => Look::Red,
        StdoutStyle::Right => Look::Green,
    }
}

/// A stdout row on screen.
pub open spec fn stdout_row(text: StyledText) -> RowView {
    line("  "@ + text.1, style_look(text.0))
}

/// The row that tells how much is scrolled past.
pub open spec fn rows_above(top: nat) -> Seq<RowView> {
    if top > 0 {
        seq![line("  ↑ "@ + decimal(top) + " more lines (PageUp)"@, Look::Dim)]
    } else {
        seq![]
    }
}

/// The row that tells how much is still below.
pub open spec fn rows_below(below: nat) -> Seq<RowView> {
    if below > 0 {
        seq![line("  ↓ "@ + decimal(below) + " more lines (PageDown)"@, Look::Dim)]
    } else {
        seq![]
    }
}

/// The stdout of an expanded test: the part of it that fits, and how much there is above and below
/// that.
pub open spec fn stdout_rows(
    stdout: Seq<char>,
    wanted: nat,
    cols: nat,
    term_rows: nat,
    above: nat,
) -> Seq<RowView> {
    let all = wrapped_styled(classified(lines_of(stdout)), stdout_width(cols));
    let budget = stdout_budget(term_rows, above);
    let top = scroll_top(all.len(), budget, wanted);
    let end = scroll_end(all.len(), budget, wanted);
    rows_above(top) + all.subrange(top as int, end as int).map_values(
        |text: StyledText| stdout_row(text),
    ) + rows_below((all.len() - end) as nat)
}

/// Where a failed test panicked.
pub open spec fn location_rows(location: Option<Seq<char>>) -> Seq<RowView> {
    match location {
        Some(location) => seq![line("  at "@ + location, Look::Dim)],
        None => seq![],
    }
}

/// The row of a failed test.
pub open spec fn failed_head(f: FailedTestView, expanded: bool, chosen: bool) -> RowView {
    RowView {
        cells: seq![
            word(
                if expanded {
                    "▾ "@
                } else {
                    "▸ "@
                },
                Look::Red,
            ),
            word(
                padded(f.name, NAME_WIDTH as nat) + " "@,
                if chosen {
                    Look::LightRedBold
                } else {
                    Look::Text
                },
            ),
            CellView::Clock { took: f.took, look: Look::Subtext },
        ],
        fade: None,
    }
}

/// A failed test under `above` rows: its row and, where it is expanded, where it panicked and what
/// it printed.
pub open spec fn failed_test_rows(
    f: FailedTestView,
    expanded: bool,
    chosen: bool,
    wanted: nat,
    cols: nat,
    term_rows: nat,
    above: nat,
) -> Seq<RowView> {
    if expanded {
        let place = location_rows(f.location);
        seq![failed_head(f, expanded, chosen)] + place + stdout_rows(
            f.stdout,
            wanted,
            cols,
            term_rows,
            above + 1 + place.len(),
        )
    } else {
        seq![failed_head(f, expanded, chosen)]
    }
}

/// The rows `shown` with the failed tests from `i` to `end` under them.
pub open spec fn with_failed_tests(
    s: StateView,
    settled: bool,
    cols: nat,
    term_rows: nat,
    shown: Seq<RowView>,
    i: int,
    end: int,
) -> Seq<RowView>
    decreases end - i,
{
    if i >= end {
        shown
    } else {
        let more = failed_test_rows(
            s.failed.items[i],
            s.failed.expanded[i],
            settled && i == s.failed.selected,
            s.failed.stdout_scroll as nat,
            cols,
            term_rows,
            shown.len(),
        );
        with_failed_tests(s, settled, cols, term_rows, shown + more, i + 1, end)
    }
}

/// The first failed test that is shown: the list scrolls to keep the selected one in view.
pub open spec fn window_start(len: nat, selected: nat) -> nat {
    if len > FAILED_ROWS {
        least(less(selected, (FAILED_ROWS - 1) as nat), (len - FAILED_ROWS) as nat)
    } else {
        0
    }
}

/// Where the failed tests that are shown end.
pub open spec fn window_end(len: nat, selected: nat) -> nat {
    least(window_start(len, selected) + FAILED_ROWS as nat, len)
}

/// The rows above the failed tests.
pub open spec fn failed_head_rows(s: StateView, settled: bool) -> Seq<RowView> {
    let len = s.failed.items.len();
    seq![
        empty_line(),
        line(
            if settled {
                "Failed ("@ + decimal((s.failed.selected + 1) as nat) + "/"@ + decimal(len) + ")"@
            } else {
                "Failed ("@ + decimal(len) + ")"@
            },
            Look::RedBold,
        ),
    ] + if settled {
        seq![
            empty_line(),
            line(
                "↑↓ select / scroll when expanded   Enter expand/collapse   PgUp/PgDn page"@,
                Look::Dim,
            ),
        ]
    } else {
        seq![]
    }
}

/// The whole table.
pub open spec fn table_of_state(
    s: StateView,
    flag_line: Seq<char>,
    settled: bool,
    elapsed: u64,
    now: u64,
    cols: nat,
    term_rows: nat,
) -> Seq<RowView> {
    let shown = progress_rows(s, flag_line, settled, elapsed, now);
    let len = s.failed.items.len();
    if len == 0 {
        shown
    } else {
        with_failed_tests(
            s,
            settled,
            cols,
            term_rows,
            shown + failed_head_rows(s, settled),
            window_start(len, s.failed.selected as nat) as int,
            window_end(len, s.failed.selected as nat) as int,
        )
    }
}

fn push_stdout(
    rows: &mut Vec<Row>,
    stdout: &str,
    wanted: usize,
    cols: usize,
    term_rows: usize,
)
    ensures
        final(rows).deep_view() == old(rows).deep_view() + stdout_rows(
            stdout@,
            wanted as nat,
            cols as nat,
            term_rows as nat,
            old(rows).deep_view().len(),
        ),
{
    let ghost before = rows.deep_view();
    assert(before.len() == rows.len());
    let width_left: usize = cols.saturating_sub(2 + STDOUT_RIGHT_PADDING);
    let width: usize = if width_left < 1 {
        1
    } else {
        width_left
    };
    let all = styled_rows(stdout, width);
    let ghost texts = all.deep_view();
    assert(texts.len() == all.len());
    let left: usize = term_rows.saturating_sub(rows.len()).saturating_sub(2);
    let budget: usize = if left < 3 {
        3
    } else {
        left
    };
    let max_scroll: usize = all.len().saturating_sub(budget);
    let top: usize = if wanted < max_scroll {
        wanted
    } else {
        max_scroll
    };
    let end: usize = if all.len() < budget || all.len() - budget < top {
        all.len()
    } else {
        top + budget
    };
    proof {
        assert(budget == stdout_budget(term_rows as nat, before.len()));
        assert(top == scroll_top(texts.len(), budget as nat, wanted as nat));
        assert(end == scroll_end(texts.len(), budget as nat, wanted as nat));
    }
    if top > 0 {
        let mut text = "  ↑ ".to_owned();
        text.append(print_decimal(top as u64).as_str());
        text.append(" more lines (PageUp)");
        push_row(rows, text_line(text, Look::Dim));
    }
    let ghost started = before + rows_above(top as nat);
    assert(rows.deep_view() =~= started);
    let ghost window = texts.subrange(top as int, end as int).map_values(
        |text: StyledText| stdout_row(text),
    );
    let mut i: usize = top;
    assert(rows.deep_view() =~= started + window.take(0));
    while i < end
        invariant
            top <= i <= end <= all.len(),
            texts == all.deep_view(),
            window == texts.subrange(top as int, end as int).map_values(
                |text: StyledText| stdout_row(text),
            ),
            rows.deep_view() == started + window.take(i - top),
        decreases end - i,
    {
        let (style, piece) = all[i];
        let look = match style {
            StdoutStyle::Plain => Look::Plain,
            StdoutStyle::Message => Look::Bold,
            StdoutStyle::Left => Look::Red,
            StdoutStyle::Right => Look::Green,
        };
        let mut text = "  ".to_owned();
        text.append(piece);
        push_row(rows, text_line(text, look));
        proof {
            let at = i - top;
            assert(texts[i as int] == (style, piece@));
            assert(window[at] == stdout_row((style, piece@)));
            assert(window.take(at + 1) =~= window.take(at).push(window[at]));
            assert(rows.deep_view() =~= started + window.take(at + 1));
        }
        i = i + 1;
    }
    assert(window.take(i - top) =~= window);
    let below: usize = all.len() - end;
    if below > 0 {
        let mut text = "  ↓ ".to_owned();
        text.append(print_decimal(below as u64).as_str());
        text.append(" more lines (PageDown)");
        push_row(rows, text_line(text, Look::Dim));
    }
    assert(rows.deep_view() =~= before + stdout_rows(
        stdout@,
        wanted as nat,
        cols as nat,
        term_rows as nat,
        before.len(),
    ));
}

fn push_failed_test(
    rows: &mut Vec<Row>,
    f: &FailedTest,
    expanded: bool,
    chosen: bool,
    wanted: usize,
    cols: usize,
    term_rows: usize,
)
    ensures
        final(rows).deep_view() == old(rows).deep_view() + failed_test_rows(
            f.deep_view(),
            expanded,
            chosen,
            wanted as nat,
            cols as nat,
            term_rows as nat,
            old(rows).deep_view().len(),
        ),
{
    let ghost before = rows.deep_view();
    let marker = if expanded {
        "▾ "
    } else {
        "▸ "
    };
    let look = if chosen {
        Look::LightRedBold
    } else {
        Look::Text
    };
    let mut name = pad_right(f.name.as_str(), NAME_WIDTH);
    name.append(" ");
    push_row(
        rows,
        row_of_three(
            cell(marker.to_owned(), Look::Red),
            cell(name, look),
            Cell::Clock { took: f.took, look: Look::Subtext },
            None,
        ),
    );
    let ghost head = failed_head(f.deep_view(), expanded, chosen);
    assert(rows.deep_view() =~= before + seq![head]);
    if expanded {
        if let Some(location) = &f.location {
            let mut text = "  at ".to_owned();
            text.append(location.as_str());
            push_row(rows, text_line(text, Look::Dim));
        }
        assert(rows.deep_view() =~= before + seq![head] + location_rows(f.deep_view().location));
        push_stdout(rows, f.stdout.as_str(), wanted, cols, term_rows);
    }
    assert(rows.deep_view() =~= before + failed_test_rows(
        f.deep_view(),
        expanded,
        chosen,
        wanted as nat,
        cols as nat,
        term_rows as nat,
        before.len(),
    ));
}

fn push_failed_head(rows: &mut Vec<Row>, state: &State, settled: bool)
    requires
        state@.failed.selected < state@.failed.items.len(),
    ensures
        final(rows).deep_view() == old(rows).deep_view() + failed_head_rows(state@, settled),
{
    assert(state@.failed.items.len() == state.failed.items.len());
    let mut text = "Failed (".to_owned();
    if settled {
        text.append(print_decimal(state.failed.selected as u64 + 1).as_str());
        text.append("/");
    }
    text.append(print_decimal(state.failed.items.len() as u64).as_str());
    text.append(")");
    push_row(rows, blank_line());
    push_row(rows, text_line(text, Look::RedBold));
    if settled {
        push_row(rows, blank_line());
        push_row(
            rows,
            text_line(
                "↑↓ select / scroll when expanded   Enter expand/collapse   PgUp/PgDn page".to_owned(),
                Look::Dim,
            ),
        );
    }
    assert(rows.deep_view() =~= old(rows).deep_view() + failed_head_rows(state@, settled));
}

fn push_failed(rows: &mut Vec<Row>, state: &State, settled: bool, cols: usize, term_rows: usize)
    requires
        state@.failed.selected < state@.failed.items.len(),
        state@.failed.expanded.len() == state@.failed.items.len(),
    ensures
        final(rows).deep_view() == with_failed_tests(
            state@,
            settled,
            cols as nat,
            term_rows as nat,
            old(rows).deep_view() + failed_head_rows(state@, settled),
            window_start(state@.failed.items.len(), state@.failed.selected as nat) as int,
            window_end(state@.failed.items.len(), state@.failed.selected as nat) as int,
        ),
{
    push_failed_head(rows, state, settled);
    let ghost s = state@;
    assert(s.failed.items.len() == state.failed.items.len());
    let len: usize = state.failed.items.len();
    let selected: usize = state.failed.selected;
    let start: usize = if len > FAILED_ROWS {
        let near = selected.saturating_sub(FAILED_ROWS - 1);
        if near < len - FAILED_ROWS {
            near
        } else {
            len - FAILED_ROWS
        }
    } else {
        0
    };
    let end: usize = if len - start < FAILED_ROWS {
        len
    } else {
        start + FAILED_ROWS
    };
    let ghost all = with_failed_tests(
        s,
        settled,
        cols as nat,
        term_rows as nat,
        rows.deep_view(),
        start as int,
        end as int,
    );
    let mut i: usize = start;
    while i < end
        invariant
            i <= end <= len,
            s == state@,
            len == state.failed.items.len(),
            s.failed.items.len() == len,
            s.failed.expanded.len() == len,
            selected == s.failed.selected,
            all == with_failed_tests(
                s,
                settled,
                cols as nat,
                term_rows as nat,
                rows.deep_view(),
                i as int,
                end as int,
            ),
        decreases end - i,
    {
        assert(s.failed.items[i as int] == state.failed.items[i as int].deep_view());
        push_failed_test(
            rows,
            &state.failed.items[i],
            state.failed.expanded[i],
            settled && i == selected,
            state.failed.stdout_scroll,
            cols,
            term_rows,
        );
        i = i + 1;
    }
}

/// The live table, on a terminal of `cols` columns and `term_rows` rows.
pub fn table(
    state: &State,
    flag_line: &str,
    settled: bool,
    elapsed: u64,
    now: u64,
    cols: usize,
    term_rows: usize,
) -> (r: Vec<Row>)
    requires
        crate::state::well_formed(state@),
    ensures
        r.deep_view() == table_of_state(
            state@,
            flag_line@,
            settled,
            elapsed,
            now,
            cols as nat,
            term_rows as nat,
        ),
{
    let mut rows: Vec<Row> = Vec::new();
    assert(rows.deep_view() =~= Seq::<RowView>::empty());
    push_head(&mut rows, state, flag_line);
    push_building(&mut rows, state, now);
    push_count(&mut rows, state);
    push_done(&mut rows, state);
    push_bar(&mut rows, state, settled, elapsed);
    assert(rows.deep_view() =~= progress_rows(state@, flag_line@, settled, elapsed, now));
    assert(state@.failed.items.len() == state.failed.items.len());
    if state.failed.items.len() > 0 {
        push_failed(&mut rows, state, settled, cols, term_rows);
    }
    rows
}

// ---- what holds of the table ----

/// The table above the failed tests always has the same number of rows, so nothing reflows as jobs
/// start and finish.
pub proof fn law_progress_has_fixed_height(
    s: StateView,
    flag_line: Seq<char>,
    settled: bool,
    elapsed: u64,
    now: u64,
)
    ensures
        progress_rows(s, flag_line, settled, elapsed, now).len() == 8 + BUILDING_ROWS + DONE_ROWS,
{
}

/// The color that a row keeps is less than that of another, as fractions.
pub open spec fn fainter(a: RowView, b: RowView) -> bool {
    match (a.fade, b.fade) {
        (Some((part, whole)), Some((other_part, other_whole))) => part * other_whole < other_part
            * whole,
        _ => false,
    }
}

/// The row keeps all of its color.
pub open spec fn in_full_color(row: RowView) -> bool {
    match row.fade {
        Some((part, whole)) => part == whole,
        None => true,
    }
}

/// Of the entries that are running, the first [`BUILDING_ROWS`] are shown, oldest first; an older
/// one is fainter than a newer one, and the newest of them keeps all of its color.
pub proof fn law_older_running_entries_are_fainter(s: StateView, j: int, now: u64)
    requires
        0 <= j < least(s.progress.building.len(), BUILDING_ROWS as nat),
    ensures
        forall|i: int|
            0 <= i < j ==> fainter(#[trigger] building_rows(s, now)[i], building_rows(s, now)[j]),
        j + 1 == least(s.progress.building.len(), BUILDING_ROWS as nat) ==> in_full_color(
            building_rows(s, now)[j],
        ),
{
    let shown = least(s.progress.building.len(), BUILDING_ROWS as nat) as int;
    assert forall|i: int| 0 <= i < j implies fainter(
        #[trigger] building_rows(s, now)[i],
        building_rows(s, now)[j],
    ) by {
        assert((i + 1) * shown < (j + 1) * shown) by (nonlinear_arith)
            requires
                i < j,
                shown > 0,
        ;
    }
}

/// Of the entries that are done, the last [`DONE_ROWS`] are shown, the latest at the bottom; an
/// earlier one is fainter than a later one, and the latest keeps all of its color.
pub proof fn law_older_finished_entries_are_fainter(s: StateView, j: int)
    requires
        DONE_ROWS - least(s.progress.done.len(), DONE_ROWS as nat) <= j < DONE_ROWS,
    ensures
        forall|i: int|
            DONE_ROWS - least(s.progress.done.len(), DONE_ROWS as nat) <= i < j ==> fainter(
                #[trigger] done_rows(s)[i],
                done_rows(s)[j],
            ),
        j + 1 == DONE_ROWS ==> in_full_color(done_rows(s)[j]),
{
    let recent = least(s.progress.done.len(), DONE_ROWS as nat) as int;
    let above = DONE_ROWS - recent;
    assert forall|i: int| above <= i < j implies fainter(
        #[trigger] done_rows(s)[i],
        done_rows(s)[j],
    ) by {
        assert((i - above + 1) * recent < (j - above + 1) * recent) by (nonlinear_arith)
            requires
                i < j,
                recent > 0,
        ;
    }
}

/// The selected failed test is always among those that are shown, which are a row of
/// [`FAILED_ROWS`] at most, and all of them where there are no more than that.
pub proof fn law_selected_test_is_in_view(len: nat, selected: nat)
    requires
        selected < len,
    ensures
        window_start(len, selected) <= selected < window_end(len, selected) <= len,
        window_end(len, selected) - window_start(len, selected) == least(len, FAILED_ROWS as nat),
{
}

/// What is scrolled past, what is shown and what is below add up to the whole; what is shown fits,
/// and fills the room as far as there is enough of it.
pub proof fn law_scrolling_accounts_for_every_row(len: nat, budget: nat, wanted: nat)
    ensures
        scroll_top(len, budget, wanted) <= scroll_end(len, budget, wanted) <= len,
        scroll_end(len, budget, wanted) - scroll_top(len, budget, wanted) == least(len, budget),
{
}

/// Output that fits is shown whole, wherever it was scrolled to.
pub proof fn law_what_fits_is_shown_whole(len: nat, budget: nat, wanted: nat)
    requires
        len <= budget,
    ensures
        scroll_top(len, budget, wanted) == 0,
        scroll_end(len, budget, wanted) == len,
{
}

/// Every row can be scrolled into view.
pub proof fn law_every_row_is_reachable(len: nat, budget: nat, row: nat)
    requires
        budget > 0,
        row < len,
    ensures
        scroll_top(len, budget, row) <= row < scroll_end(len, budget, row),
{
}

// ---- what the table tells ----

/// The version of a crate where it is known, else nothing.
pub open spec fn known_version(s: StateView, name: Seq<char>) -> Seq<char> {
    if s.project.versions.contains_key(name) {
        s.project.versions[name]
    } else {
        seq![]
    }
}

proof fn lemma_front_stays(
    s: StateView,
    settled: bool,
    cols: nat,
    term_rows: nat,
    shown: Seq<RowView>,
    i: int,
    end: int,
)
    ensures
        shown.len() <= with_failed_tests(s, settled, cols, term_rows, shown, i, end).len(),
        forall|k: int|
            0 <= k < shown.len() ==> #[trigger] with_failed_tests(
                s,
                settled,
                cols,
                term_rows,
                shown,
                i,
                end,
            )[k] == shown[k],
    decreases end - i,
{
    if i < end {
        let more = failed_test_rows(
            s.failed.items[i],
            s.failed.expanded[i],
            settled && i == s.failed.selected,
            s.failed.stdout_scroll as nat,
            cols,
            term_rows,
            shown.len(),
        );
        lemma_front_stays(s, settled, cols, term_rows, shown + more, i + 1, end);
        assert(forall|k: int| 0 <= k < shown.len() ==> (shown + more)[k] == shown[k]);
    }
}

proof fn lemma_progress_comes_first(
    s: StateView,
    flag_line: Seq<char>,
    settled: bool,
    elapsed: u64,
    now: u64,
    cols: nat,
    term_rows: nat,
)
    ensures
        ({
            let rows = table_of_state(s, flag_line, settled, elapsed, now, cols, term_rows);
            let progress = progress_rows(s, flag_line, settled, elapsed, now);
            &&& progress.len() == 20
            &&& rows.len() >= 20
            &&& forall|k: int| 0 <= k < 20 ==> #[trigger] rows[k] == progress[k]
            &&& s.failed.items.len() == 0 ==> rows.len() == 20
            &&& s.failed.items.len() > 0 ==> {
                let head = failed_head_rows(s, settled);
                &&& head.len() == if settled {
                    4int
                } else {
                    2
                }
                &&& rows.len() >= 20 + head.len()
                &&& forall|k: int| 0 <= k < head.len() ==> rows[20 + k] == #[trigger] head[k]
            }
        }),
{
    let progress = progress_rows(s, flag_line, settled, elapsed, now);
    if s.failed.items.len() > 0 {
        let head = failed_head_rows(s, settled);
        let shown = progress + head;
        let len = s.failed.items.len();
        lemma_front_stays(
            s,
            settled,
            cols,
            term_rows,
            shown,
            window_start(len, s.failed.selected as nat) as int,
            window_end(len, s.failed.selected as nat) as int,
        );
        let rows = table_of_state(s, flag_line, settled, elapsed, now, cols, term_rows);
        assert forall|k: int| 0 <= k < 20 implies #[trigger] rows[k] == progress[k] by {
            assert(shown[k] == progress[k]);
        }
        assert forall|k: int| 0 <= k < head.len() implies rows[20 + k] == #[trigger] head[k] by {
            assert(shown[20 + k] == head[k]);
        }
    }
}

/// The table tells the command, what phase it is in, how many units have been seen of how many, how
/// far that is, whether it still moves or how it ended, and how long it took.
pub proof fn law_table_tells_how_far_it_has_come(
    s: StateView,
    flag_line: Seq<char>,
    settled: bool,
    elapsed: u64,
    now: u64,
    cols: nat,
    term_rows: nat,
)
    ensures
        ({
            let rows = table_of_state(s, flag_line, settled, elapsed, now, cols, term_rows);
            let p = s.progress;
            let count = " ("@ + decimal(p.seen as nat) + "/"@ + decimal(p.total as nat) + ")"@;
            let bar = rows[18].cells;
            let clock = rows[19].cells;
            &&& rows.len() >= 20
            &&& reads(rows[0], flag_line, Look::Dim)
            &&& rows[1].cells == seq![CellView::Rule]
            &&& p.testing ==> reads(rows[2], "Running"@, Look::Dim)
            &&& !p.testing ==> reads(rows[2], "Compiling"@, Look::Dim)
            &&& rows[9].cells == seq![CellView::Rule]
            &&& p.testing ==> reads(rows[10], "Tests"@ + count, Look::Dim)
            &&& !p.testing ==> reads(rows[10], "Compiled"@ + count, Look::Dim)
            &&& reads(rows[17], seq![], Look::Plain)
            &&& bar.len() == 3
            &&& p.testing ==> bar[0] == (CellView::Text {
                text: padded("Progress"@, 14),
                look: Look::Dim,
            })
            &&& !p.testing ==> bar[0] == (CellView::Text {
                text: padded("Build"@, 14),
                look: Look::Dim,
            })
            &&& bar[1] == (CellView::Bar {
                seen: p.seen,
                total: p.total,
                fill: if !settled {
                    BarLook::Moving
                } else if s.failed.items.len() > 0 {
                    BarLook::Failed
                } else {
                    BarLook::Passed
                },
            })
            &&& bar[2] == (CellView::Percent { seen: p.seen, total: p.total })
            &&& clock.len() == 2
            &&& clock[0] == (CellView::Text { text: padded("Elapsed"@, 14), look: Look::Dim })
            &&& clock[1] == (CellView::Elapsed { nanos: elapsed, look: Look::Plain })
        }),
{
    lemma_progress_comes_first(s, flag_line, settled, elapsed, now, cols, term_rows);
    let count = " ("@ + decimal(s.progress.seen as nat) + "/"@ + decimal(s.progress.total as nat)
        + ")"@;
    assert("Tests"@ + " ("@ + decimal(s.progress.seen as nat) + "/"@ + decimal(
        s.progress.total as nat,
    ) + ")"@ =~= "Tests"@ + count);
    assert("Compiled"@ + " ("@ + decimal(s.progress.seen as nat) + "/"@ + decimal(
        s.progress.total as nat,
    ) + ")"@ =~= "Compiled"@ + count);
}

/// The first six running entries are shown, one per row: by name, a crate with its version and its
/// build script while that runs, the project itself in its own color, and the time since it started.
pub proof fn law_running_entries_are_shown(
    s: StateView,
    flag_line: Seq<char>,
    settled: bool,
    elapsed: u64,
    now: u64,
    cols: nat,
    term_rows: nat,
    i: int,
)
    requires
        0 <= i < 6,
    ensures
        ({
            let row = table_of_state(s, flag_line, settled, elapsed, now, cols, term_rows)[3 + i];
            let building = s.progress.building;
            let e = building[i];
            let version = known_version(s, e.name);
            &&& i < building.len() ==> {
                &&& row.cells.len() == 3
                &&& row.cells[0] == (CellView::Text { text: "● "@, look: Look::Yellow })
                &&& row.cells[1] == (CellView::Text {
                    text: padded(
                        if s.progress.testing {
                            e.name
                        } else if e.script {
                            "build("@ + e.name + ") "@ + version
                        } else {
                            e.name + " "@ + version
                        },
                        32,
                    ),
                    look: if e.name == s.project.name {
                        Look::Sapphire
                    } else {
                        Look::Text
                    },
                })
                &&& row.cells[2] == (CellView::Clock {
                    took: Took::Nanos(
                        if now >= e.started {
                            (now - e.started) as u64
                        } else {
                            0
                        },
                    ),
                    look: Look::Subtext,
                })
                &&& row.fade == Some(
                    (
                        (i + 1) as usize,
                        if building.len() < 6 {
                            building.len() as usize
                        } else {
                            6
                        },
                    ),
                )
            }
            &&& i >= building.len() && i == 0 ==> reads(row, "  …"@, Look::Dim)
            &&& i >= building.len() && i > 0 ==> reads(row, seq![], Look::Plain)
        }),
{
    lemma_progress_comes_first(s, flag_line, settled, elapsed, now, cols, term_rows);
    let progress = progress_rows(s, flag_line, settled, elapsed, now);
    assert(progress[3 + i] == building_rows(s, now)[i]);
}

/// The last six finished entries are shown, the latest in the last of their rows: by name, a crate
/// with its version, and with the time that each took.
pub proof fn law_finished_entries_are_shown(
    s: StateView,
    flag_line: Seq<char>,
    settled: bool,
    elapsed: u64,
    now: u64,
    cols: nat,
    term_rows: nat,
    i: int,
)
    requires
        0 <= i < 6,
    ensures
        ({
            let row = table_of_state(s, flag_line, settled, elapsed, now, cols, term_rows)[11 + i];
            let done = s.progress.done;
            let at = done.len() - 6 + i;
            let e = done[at];
            &&& at >= 0 ==> {
                &&& row.cells.len() == 3
                &&& row.cells[0] == (CellView::Text { text: "✓ "@, look: Look::Green })
                &&& row.cells[1] == (CellView::Text {
                    text: padded(
                        if s.progress.testing {
                            e.name
                        } else {
                            e.name + " "@ + known_version(s, e.name)
                        },
                        32,
                    ),
                    look: Look::Text,
                })
                &&& row.cells[2] == (CellView::Clock { took: e.took, look: Look::Subtext })
            }
            &&& at < 0 ==> reads(row, seq![], Look::Plain)
        }),
{
    lemma_progress_comes_first(s, flag_line, settled, elapsed, now, cols, term_rows);
    let progress = progress_rows(s, flag_line, settled, elapsed, now);
    assert(progress[11 + i] == done_rows(s)[i]);
}

/// Without a failed test the table ends with the clock. Otherwise it tells how many there are, and,
/// once it has settled, which of them is selected and what the keys do.
pub proof fn law_table_counts_the_failed_tests(
    s: StateView,
    flag_line: Seq<char>,
    settled: bool,
    elapsed: u64,
    now: u64,
    cols: nat,
    term_rows: nat,
)
    ensures
        ({
            let rows = table_of_state(s, flag_line, settled, elapsed, now, cols, term_rows);
            let len = s.failed.items.len();
            &&& len == 0 ==> rows.len() == 20
            &&& len > 0 && !settled ==> {
                &&& rows.len() >= 22
                &&& reads(rows[20], seq![], Look::Plain)
                &&& reads(rows[21], "Failed ("@ + decimal(len) + ")"@, Look::RedBold)
            }
            &&& len > 0 && settled ==> {
                &&& rows.len() >= 24
                &&& reads(rows[20], seq![], Look::Plain)
                &&& reads(
                    rows[21],
                    "Failed ("@ + decimal((s.failed.selected + 1) as nat) + "/"@ + decimal(len)
                        + ")"@,
                    Look::RedBold,
                )
                &&& reads(rows[22], seq![], Look::Plain)
                &&& reads(
                    rows[23],
                    "↑↓ select / scroll when expanded   Enter expand/collapse   PgUp/PgDn page"@,
                    Look::Dim,
                )
            }
        }),
{
    lemma_progress_comes_first(s, flag_line, settled, elapsed, now, cols, term_rows);
    if s.failed.items.len() > 0 {
        let rows = table_of_state(s, flag_line, settled, elapsed, now, cols, term_rows);
        let head = failed_head_rows(s, settled);
        assert(rows[20] == head[0]);
        assert(rows[21] == head[1]);
        if settled {
            assert(rows[22] == head[2]);
            assert(rows[23] == head[3]);
        }
    }
}

/// The list of failed tests stays at its beginning as long as the selected one is among the first
/// six; after that the selected one is the last that is shown.
pub proof fn law_list_scrolls_no_more_than_it_has_to(len: nat, selected: nat)
    requires
        selected < len,
    ensures
        selected < 6 ==> window_start(len, selected) == 0,
        selected >= 6 ==> window_end(len, selected) == selected + 1,
{
}

/// The row of a failed test tells whether it is expanded, its name, and the time it took; the one
/// that is selected stands out. Only under an expanded test stand, first, where it panicked, as far
/// as that is known, and then its output.
pub proof fn law_failed_test_is_shown(
    f: FailedTestView,
    expanded: bool,
    chosen: bool,
    wanted: nat,
    cols: nat,
    term_rows: nat,
    above: nat,
)
    ensures
        ({
            let rows = failed_test_rows(f, expanded, chosen, wanted, cols, term_rows, above);
            let head = rows[0].cells;
            &&& rows.len() >= 1
            &&& head.len() == 3
            &&& expanded ==> head[0] == (CellView::Text { text: "▾ "@, look: Look::Red })
            &&& !expanded ==> head[0] == (CellView::Text { text: "▸ "@, look: Look::Red })
            &&& head[1] == (CellView::Text {
                text: padded(f.name, 32) + " "@,
                look: if chosen {
                    Look::LightRedBold
                } else {
                    Look::Text
                },
            })
            &&& head[2] == (CellView::Clock { took: f.took, look: Look::Subtext })
            &&& !expanded ==> rows.len() == 1
            &&& expanded && f.location is Some ==> {
                &&& rows.len() >= 2
                &&& reads(rows[1], "  at "@ + f.location->0, Look::Dim)
                &&& rows.skip(2) == stdout_rows(f.stdout, wanted, cols, term_rows, above + 2)
            }
            &&& expanded && f.location is None ==> rows.skip(1) == stdout_rows(
                f.stdout,
                wanted,
                cols,
                term_rows,
                above + 1,
            )
        }),
{
    let rows = failed_test_rows(f, expanded, chosen, wanted, cols, term_rows, above);
    if expanded {
        if f.location is Some {
            assert(rows.skip(2) =~= stdout_rows(f.stdout, wanted, cols, term_rows, above + 2));
        } else {
            assert(rows.skip(1) =~= stdout_rows(f.stdout, wanted, cols, term_rows, above + 1));
        }
    }
}

/// The output of an expanded test, wrapped six columns short of the terminal, is shown from the row
/// that was scrolled to, but never from one after which too little is left to fill the room. The room
/// is what the terminal has below the rows above, less two, and at least three rows. Each row has the
/// look of its line, and one row above and one below tell how much there is more.
pub proof fn law_output_is_shown_from_where_it_was_scrolled_to(
    stdout: Seq<char>,
    wanted: nat,
    cols: nat,
    term_rows: nat,
    above: nat,
    j: int,
)
    ensures
        ({
            let rows = stdout_rows(stdout, wanted, cols, term_rows, above);
            let width: nat = if cols > 7 {
                (cols - 6) as nat
            } else {
                1
            };
            let room: nat = if term_rows > above + 5 {
                (term_rows - above - 2) as nat
            } else {
                3
            };
            let all = wrapped_styled(classified(lines_of(stdout)), width);
            let top: nat = if all.len() <= room {
                0
            } else if wanted + room < all.len() {
                wanted
            } else {
                (all.len() - room) as nat
            };
            let shown: nat = if all.len() < room {
                all.len()
            } else {
                room
            };
            let below = all.len() - top - shown;
            let first = if top > 0 {
                1int
            } else {
                0
            };
            &&& below >= 0
            &&& rows.len() == first + shown + if below > 0 {
                1int
            } else {
                0
            }
            &&& top > 0 ==> reads(
                rows[0],
                "  ↑ "@ + decimal(top) + " more lines (PageUp)"@,
                Look::Dim,
            )
            &&& below > 0 ==> reads(
                rows.last(),
                "  ↓ "@ + decimal(below as nat) + " more lines (PageDown)"@,
                Look::Dim,
            )
            &&& 0 <= j < shown ==> reads(
                rows[first + j],
                "  "@ + all[top + j].1,
                match all[top + j].0 {
                    StdoutStyle::Plain => Look::Plain,
                    StdoutStyle::Message => Look::Bold,
                    StdoutStyle::Left => Look::Red,
                    StdoutStyle::Right => Look::Green,
                },
            )
        }),
{
    let rows = stdout_rows(stdout, wanted, cols, term_rows, above);
    let all = wrapped_styled(classified(lines_of(stdout)), stdout_width(cols));
    let budget = stdout_budget(term_rows, above);
    let top = scroll_top(all.len(), budget, wanted);
    let end = scroll_end(all.len(), budget, wanted);
    let shown = all.subrange(top as int, end as int).map_values(
        |text: StyledText| stdout_row(text),
    );
    let first = rows_above(top).len();
    if 0 <= j < shown.len() {
        assert(rows[first + j] == shown[j]);
        assert(shown[j] == stdout_row(all[top + j]));
    }
}

/// Every failed test that is in view is shown, in the list's order, with the look of the selected
/// one where it is that and the view has settled: its rows stand together, somewhere below the
/// header.
pub proof fn law_failed_tests_in_view_are_shown(
    s: StateView,
    flag_line: Seq<char>,
    settled: bool,
    elapsed: u64,
    now: u64,
    cols: nat,
    term_rows: nat,
    i: int,
)
    requires
        window_start(s.failed.items.len(), s.failed.selected as nat) <= i < window_end(
            s.failed.items.len(),
            s.failed.selected as nat,
        ),
    ensures
        ({
            let rows = table_of_state(s, flag_line, settled, elapsed, now, cols, term_rows);
            exists|at: int| #[trigger]
                block_at(rows, s, settled, cols, term_rows, i, at) && at >= if settled {
                    24int
                } else {
                    22
                }
        }),
{
    let len = s.failed.items.len();
    let shown = progress_rows(s, flag_line, settled, elapsed, now) + failed_head_rows(s, settled);
    let end = window_end(len, s.failed.selected as nat) as int;
    let start = window_start(len, s.failed.selected as nat) as int;
    lemma_progress_comes_first(s, flag_line, settled, elapsed, now, cols, term_rows);
    lemma_block_is_there(s, settled, cols, term_rows, shown, start, end, i);
    let rows = table_of_state(s, flag_line, settled, elapsed, now, cols, term_rows);
    assert(rows == with_failed_tests(s, settled, cols, term_rows, shown, start, end));
    let at = choose|at: int| #[trigger]
        block_at(rows, s, settled, cols, term_rows, i, at) && at >= shown.len();
    assert(block_at(rows, s, settled, cols, term_rows, i, at));
}

/// The rows of the failed test at `i` stand at `at`.
pub open spec fn block_at(
    rows: Seq<RowView>,
    s: StateView,
    settled: bool,
    cols: nat,
    term_rows: nat,
    i: int,
    at: int,
) -> bool {
    let block = failed_test_rows(
        s.failed.items[i],
        s.failed.expanded[i],
        settled && i == s.failed.selected,
        s.failed.stdout_scroll as nat,
        cols,
        term_rows,
        at as nat,
    );
    0 <= at && at + block.len() <= rows.len() && rows.subrange(at, at + block.len()) == block
}

proof fn lemma_block_is_there(
    s: StateView,
    settled: bool,
    cols: nat,
    term_rows: nat,
    shown: Seq<RowView>,
    from: int,
    end: int,
    i: int,
)
    requires
        from <= i < end,
    ensures
        exists|at: int| #[trigger]
            block_at(
                with_failed_tests(s, settled, cols, term_rows, shown, from, end),
                s,
                settled,
                cols,
                term_rows,
                i,
                at,
            ) && at >= shown.len(),
    decreases end - from,
{
    let more = failed_test_rows(
        s.failed.items[from],
        s.failed.expanded[from],
        settled && from == s.failed.selected,
        s.failed.stdout_scroll as nat,
        cols,
        term_rows,
        shown.len(),
    );
    let next = shown + more;
    let rows = with_failed_tests(s, settled, cols, term_rows, shown, from, end);
    if from == i {
        lemma_front_stays(s, settled, cols, term_rows, next, from + 1, end);
        let at = shown.len() as int;
        assert forall|k: int| 0 <= k < more.len() implies rows[at + k] == more[k] by {
            assert(next[at + k] == more[k]);
        }
        assert(rows.subrange(at, at + more.len()) =~= more);
        assert(block_at(rows, s, settled, cols, term_rows, i, at));
    } else {
        lemma_block_is_there(s, settled, cols, term_rows, next, from + 1, end, i);
        let at = choose|at: int| #[trigger]
            block_at(rows, s, settled, cols, term_rows, i, at) && at >= next.len();
        assert(block_at(rows, s, settled, cols, term_rows, i, at));
    }
}

/// While no failed test is expanded, the table has one row for each that is in view, and those stand
/// in order right below the header.
pub proof fn law_collapsed_tests_take_one_row_each(
    s: StateView,
    flag_line: Seq<char>,
    settled: bool,
    elapsed: u64,
    now: u64,
    cols: nat,
    term_rows: nat,
    i: int,
)
    requires
        s.failed.items.len() > 0,
        forall|k: int| 0 <= k < s.failed.items.len() ==> !#[trigger] s.failed.expanded[k],
        s.failed.selected < s.failed.items.len(),
    ensures
        ({
            let rows = table_of_state(s, flag_line, settled, elapsed, now, cols, term_rows);
            let len = s.failed.items.len();
            let start = window_start(len, s.failed.selected as nat);
            let head = if settled {
                24int
            } else {
                22
            };
            &&& rows.len() == head + if len < 6 {
                len as int
            } else {
                6
            }
            &&& start <= i < start + rows.len() - head ==> rows[head + i - start].cells[1]
                == (CellView::Text {
                text: padded(s.failed.items[i].name, 32) + " "@,
                look: if settled && i == s.failed.selected {
                    Look::LightRedBold
                } else {
                    Look::Text
                },
            })
        }),
{
    let len = s.failed.items.len();
    let shown = progress_rows(s, flag_line, settled, elapsed, now) + failed_head_rows(s, settled);
    let end = window_end(len, s.failed.selected as nat) as int;
    let start = window_start(len, s.failed.selected as nat) as int;
    law_selected_test_is_in_view(len, s.failed.selected as nat);
    lemma_collapsed(s, settled, cols, term_rows, shown, start, end, i);
}

proof fn lemma_collapsed(
    s: StateView,
    settled: bool,
    cols: nat,
    term_rows: nat,
    shown: Seq<RowView>,
    from: int,
    end: int,
    i: int,
)
    requires
        0 <= from <= end <= s.failed.items.len(),
        forall|k: int| 0 <= k < s.failed.items.len() ==> !#[trigger] s.failed.expanded[k],
    ensures
        ({
            let rows = with_failed_tests(s, settled, cols, term_rows, shown, from, end);
            &&& rows.len() == shown.len() + end - from
            &&& from <= i < end ==> rows[shown.len() + i - from] == failed_head(
                s.failed.items[i],
                false,
                settled && i == s.failed.selected,
            )
        }),
    decreases end - from,
{
    if from < end {
        assert(!s.failed.expanded[from]);
        let head = failed_head(
            s.failed.items[from],
            false,
            settled && from == s.failed.selected,
        );
        let next = shown + seq![head];
        lemma_collapsed(s, settled, cols, term_rows, next, from + 1, end, i);
        lemma_front_stays(s, settled, cols, term_rows, next, from + 1, end);
        if i == from {
            assert(next[shown.len() as int] == head);
        }
    }
}

} // verus!
