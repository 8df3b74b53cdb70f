//! What is on screen, row by row: the texts and how they look, short of painting them.

use crate::events::{Took, Warning, WarningView};
use crate::metrics::{human_size, size_text};
use crate::text::{decimal, print_decimal};
use vstd::prelude::*;
use vstd::string::*;

verus! {

/// How a text looks.
#[derive(Clone, Copy, PartialEq, Eq, Structural, Debug)]
pub enum Look {
    Plain,
    Bold,
    Dim,
    Text,
    Subtext,
    Sapphire,
    Yellow,
    YellowBold,
    Green,
    GreenBold,
    Red,
    RedBold,
    LightRedBold,
}

/// How the filled part of the progress bar looks: a moving sweep as long as something is working,
/// a plain outcome color after that.
#[derive(Clone, Copy, PartialEq, Eq, Structural, Debug)]
pub enum BarLook {
    Moving,
    Passed,
    Failed,
}

/// One piece of a row.
#[derive(Debug, PartialEq, Eq)]
pub enum Cell {
    Text { text: String, look: Look },
    /// A horizontal rule of [`RULE_WIDTH`] columns.
    Rule,
    /// How long something took: seconds with two decimals, two digits before them at least.
    Clock { took: Took, look: Look },
    /// How long everything took: seconds with two decimals.
    Elapsed { nanos: u64, look: Look },
    /// The progress bar.
    Bar { seen: usize, total: usize, fill: BarLook },
    /// The progress in percent.
    Percent { seen: usize, total: usize },
}

/// The length of a horizontal rule.
pub const RULE_WIDTH: u16 = 40;

/// A [`Cell`] as a mathematical value.
pub enum CellView {
    Text { text: Seq<char>, look: Look },
    Rule,
    Clock { took: Took, look: Look },
    Elapsed { nanos: u64, look: Look },
    Bar { seen: usize, total: usize, fill: BarLook },
    Percent { seen: usize, total: usize },
}

impl DeepView for Cell {
    type V = CellView;

    open spec fn deep_view(&self) -> CellView {
        match self {
            Cell::Text { text, look } => CellView::Text { text: text@, look: *look },
            Cell::Rule => CellView::Rule,
            Cell::Clock { took, look } => CellView::Clock { took: *took, look: *look },
            Cell::Elapsed { nanos, look } => CellView::Elapsed { nanos: *nanos, look: *look },
            Cell::Bar { seen, total, fill } => CellView::Bar {
                seen: *seen,
                total: *total,
                fill: *fill,
            },
            Cell::Percent { seen, total } => CellView::Percent { seen: *seen, total: *total },
        }
    }
}

/// One row on screen.
#[derive(Debug, PartialEq, Eq)]
pub struct Row {
    pub cells: Vec<Cell>,
    /// How much of its color the row keeps, as a fraction; older rows recede toward the
    /// background. All of it for `None`.
    pub fade: Option<(usize, usize)>,
}

/// A [`Row`] as a mathematical value.
#[verifier::ext_equal]
pub struct RowView {
    pub cells: Seq<CellView>,
    pub fade: Option<(usize, usize)>,
}

impl DeepView for Row {
    type V = RowView;

    open spec fn deep_view(&self) -> RowView {
        RowView { cells: self.cells.deep_view(), fade: self.fade }
    }
}

/// A piece of text.
pub open spec fn word(text: Seq<char>, look: Look) -> CellView {
    CellView::Text { text, look }
}

/// A row that is one piece of text.
pub open spec fn line(text: Seq<char>, look: Look) -> RowView {
    RowView { cells: seq![word(text, look)], fade: None }
}

/// An empty row.
pub open spec fn empty_line() -> RowView {
    line(Seq::empty(), Look::Plain)
}

pub(crate) fn cell(text: String, look: Look) -> (r: Cell)
    ensures
        r.deep_view() == word(text@, look),
{
    Cell::Text { text, look }
}

pub(crate) fn row_of(cell: Cell) -> (r: Row)
    ensures
        r.deep_view() == (RowView { cells: seq![cell.deep_view()], fade: None }),
{
    let mut cells: Vec<Cell> = Vec::new();
    cells.push(cell);
    assert(cells.deep_view() =~= seq![cell.deep_view()]);
    Row { cells, fade: None }
}

pub(crate) fn row_of_two(first: Cell, second: Cell) -> (r: Row)
    ensures
        r.deep_view() == (RowView {
            cells: seq![first.deep_view(), second.deep_view()],
            fade: None,
        }),
{
    let mut cells: Vec<Cell> = Vec::new();
    cells.push(first);
    cells.push(second);
    assert(cells.deep_view() =~= seq![first.deep_view(), second.deep_view()]);
    Row { cells, fade: None }
}

pub(crate) fn row_of_three(first: Cell, second: Cell, third: Cell, fade: Option<(usize, usize)>) -> (r:
    Row)
    ensures
        r.deep_view() == (RowView {
            cells: seq![first.deep_view(), second.deep_view(), third.deep_view()],
            fade,
        }),
{
    let mut cells: Vec<Cell> = Vec::new();
    cells.push(first);
    cells.push(second);
    cells.push(third);
    assert(cells.deep_view() =~= seq![
        first.deep_view(),
        second.deep_view(),
        third.deep_view(),
    ]);
    Row { cells, fade }
}

pub(crate) fn text_line(text: String, look: Look) -> (r: Row)
    ensures
        r.deep_view() == line(text@, look),
{
    row_of(cell(text, look))
}

pub(crate) fn blank_line() -> (r: Row)
    ensures
        r.deep_view() == empty_line(),
{
    text_line(String::new(), Look::Plain)
}

pub(crate) fn push_row(rows: &mut Vec<Row>, row: Row)
    ensures
        final(rows).deep_view() == old(rows).deep_view().push(row.deep_view()),
{
    rows.push(row);
    assert(rows.deep_view() =~= old(rows).deep_view().push(row.deep_view()));
}

// ---- the warning panel ----

/// The panel over the warnings of a build: rows above the box, in it, and below it.
#[derive(Debug, PartialEq, Eq)]
pub struct Panel {
    pub top: Vec<Row>,
    pub body: Vec<Row>,
    pub bottom: Vec<Row>,
}

/// A [`Panel`] as a mathematical value.
#[verifier::ext_equal]
pub struct PanelView {
    pub top: Seq<RowView>,
    pub body: Seq<RowView>,
    pub bottom: Seq<RowView>,
}

impl DeepView for Panel {
    type V = PanelView;

    open spec fn deep_view(&self) -> PanelView {
        PanelView {
            top: self.top.deep_view(),
            body: self.body.deep_view(),
            bottom: self.bottom.deep_view(),
        }
    }
}

/// `s` behind everything but a single one.
pub open spec fn plural(n: nat) -> Seq<char> {
    if n == 1 {
        Seq::empty()
    } else {
        "s"@
    }
}

/// One warning in short: its message, where it is and what helps, as far as that is known.
pub open spec fn warning_rows(w: WarningView) -> Seq<RowView> {
    seq![line(w.message, Look::Plain)] + match w.location {
        Some(location) => seq![line(location, Look::Dim)],
        None => seq![],
    } + match w.help {
        Some(help) => seq![empty_line(), line("help: "@ + help, Look::Dim)],
        None => seq![],
    }
}

/// The panel that shows the selected warning, in full where it is being inspected.
pub open spec fn panel_of(
    warnings: Seq<WarningView>,
    selected: int,
    inspecting: bool,
) -> PanelView {
    PanelView {
        top: seq![
            line("⚠  Build completed with warnings"@, Look::YellowBold),
            empty_line(),
            line(
                decimal((selected + 1) as nat) + " / "@ + decimal(warnings.len()) + " warning"@
                    + plural(warnings.len()),
                Look::Dim,
            ),
            empty_line(),
        ],
        body: if inspecting {
            seq![line(warnings[selected].rendered, Look::Plain)]
        } else {
            warning_rows(warnings[selected])
        },
        bottom: seq![
            empty_line(),
            line("↑↓ navigate   Enter inspect   Esc dismiss"@, Look::Dim),
        ],
    }
}

fn push_plural(out: &mut String, n: usize)
    ensures
        final(out)@ == old(out)@ + plural(n as nat),
{
    if n != 1 {
        out.append("s");
    } else {
        assert(out@ + plural(1) =~= out@);
    }
}

/// The panel over the warnings of a finished build.
pub fn warning_panel(warnings: &Vec<Warning>, selected: usize, inspecting: bool) -> (r: Panel)
    requires
        selected < warnings.len(),
    ensures
        r.deep_view() == panel_of(warnings.deep_view(), selected as int, inspecting),
{
    let ghost all = warnings.deep_view();
    let w = &warnings[selected];
    assert(all[selected as int] == w.deep_view());
    assert(all.len() == warnings.len());

    let mut body: Vec<Row> = Vec::new();
    assert(body.deep_view() =~= Seq::<RowView>::empty());
    if inspecting {
        push_row(&mut body, text_line(w.rendered.clone(), Look::Plain));
    } else {
        push_row(&mut body, text_line(w.message.clone(), Look::Plain));
        if let Some(location) = &w.location {
            push_row(&mut body, text_line(location.clone(), Look::Dim));
        }
        if let Some(help) = &w.help {
            push_row(&mut body, blank_line());
            let mut text = "help: ".to_owned();
            text.append(help.as_str());
            push_row(&mut body, text_line(text, Look::Dim));
        }
        assert(body.deep_view() =~= warning_rows(w.deep_view()));
    }

    let mut count = print_decimal(selected as u64 + 1);
    count.append(" / ");
    count.append(print_decimal(warnings.len() as u64).as_str());
    count.append(" warning");
    push_plural(&mut count, warnings.len());
    let mut top: Vec<Row> = Vec::new();
    assert(top.deep_view() =~= Seq::<RowView>::empty());
    push_row(
        &mut top,
        text_line("⚠  Build completed with warnings".to_owned(), Look::YellowBold),
    );
    push_row(&mut top, blank_line());
    push_row(&mut top, text_line(count, Look::Dim));
    push_row(&mut top, blank_line());

    let mut bottom: Vec<Row> = Vec::new();
    assert(bottom.deep_view() =~= Seq::<RowView>::empty());
    push_row(&mut bottom, blank_line());
    push_row(
        &mut bottom,
        text_line("↑↓ navigate   Enter inspect   Esc dismiss".to_owned(), Look::Dim),
    );

    let panel = Panel { top, body, bottom };
    proof {
        let expected = panel_of(all, selected as int, inspecting);
        assert(panel.deep_view().top =~= expected.top);
        assert(panel.deep_view().body =~= expected.body);
        assert(panel.deep_view().bottom =~= expected.bottom);
    }
    panel
}

// ---- the summary ----

/// The summary's first row: how the build of `project` ended, after how long, with how many
/// warnings.
pub open spec fn summary_head(project: Seq<char>, ok: bool, nanos: u64, warnings: nat) -> RowView {
    if ok && warnings == 0 {
        RowView {
            cells: seq![
                word("✓ "@ + project + " built in "@, Look::GreenBold),
                CellView::Elapsed { nanos, look: Look::GreenBold },
            ],
            fade: None,
        }
    } else if ok {
        RowView {
            cells: seq![
                word("⚠ "@ + project + " built in "@, Look::YellowBold),
                CellView::Elapsed { nanos, look: Look::YellowBold },
                word(
                    " ("@ + decimal(warnings) + " warning"@ + plural(warnings) + ")"@,
                    Look::YellowBold,
                ),
            ],
            fade: None,
        }
    } else {
        RowView {
            cells: seq![
                word("✗ "@ + project + " failed after "@, Look::RedBold),
                CellView::Elapsed { nanos, look: Look::RedBold },
            ],
            fade: None,
        }
    }
}

/// The summary: how the build ended, how many libs it compiled, how much disk it took.
pub open spec fn summary_of(
    project: Seq<char>,
    ok: bool,
    nanos: u64,
    warnings: nat,
    libs: nat,
    grew_by: u64,
) -> Seq<RowView> {
    seq![
        summary_head(project, ok, nanos, warnings),
        RowView {
            cells: seq![
                word("  libs compiled  "@, Look::Dim),
                word(decimal(libs), Look::Plain),
            ],
            fade: None,
        },
        RowView {
            cells: seq![
                word("  disk used      "@, Look::Dim),
                word(size_text(grew_by as nat), Look::Plain),
            ],
            fade: None,
        },
    ]
}

fn framed(before: &str, project: &str, after: &str) -> (r: String)
    ensures
        r@ == before@ + project@ + after@,
{
    let mut out = before.to_owned();
    out.append(project);
    out.append(after);
    out
}

/// The summary that stands once the build is over.
pub fn summary_block(
    project: &str,
    ok: bool,
    nanos: u64,
    warnings: usize,
    libs: usize,
    grew_by: u64,
) -> (r: Vec<Row>)
    ensures
        r.deep_view() == summary_of(project@, ok, nanos, warnings as nat, libs as nat, grew_by),
{
    let head = if ok && warnings == 0 {
        let look = Look::GreenBold;
        row_of_two(
            cell(framed("✓ ", project, " built in "), look),
            Cell::Elapsed { nanos, look },
        )
    } else if ok {
        let look = Look::YellowBold;
        let mut count = framed(" (", print_decimal(warnings as u64).as_str(), " warning");
        push_plural(&mut count, warnings);
        count.append(")");
        row_of_three(
            cell(framed("⚠ ", project, " built in "), look),
            Cell::Elapsed { nanos, look },
            cell(count, look),
            None,
        )
    } else {
        let look = Look::RedBold;
        row_of_two(
            cell(framed("✗ ", project, " failed after "), look),
            Cell::Elapsed { nanos, look },
        )
    };
    let mut rows: Vec<Row> = Vec::new();
    assert(rows.deep_view() =~= Seq::<RowView>::empty());
    push_row(&mut rows, head);
    push_row(
        &mut rows,
        row_of_two(
            cell("  libs compiled  ".to_owned(), Look::Dim),
            cell(print_decimal(libs as u64), Look::Plain),
        ),
    );
    push_row(
        &mut rows,
        row_of_two(
            cell("  disk used      ".to_owned(), Look::Dim),
            cell(human_size(grew_by), Look::Plain),
        ),
    );
    assert(rows.deep_view() =~= summary_of(
        project@,
        ok,
        nanos,
        warnings as nat,
        libs as nat,
        grew_by,
    ));
    rows
}

// ---- what the panel and the summary tell ----

/// The row is this text alone, in this look.
pub open spec fn reads(row: RowView, text: Seq<char>, look: Look) -> bool {
    row.cells.len() == 1 && row.cells[0] == (CellView::Text { text, look })
}

/// The panel tells which of how many warnings is selected, and shows that one: in full where it is
/// being inspected, else its message, then where it is and what helps, as far as that is known.
pub proof fn law_panel_shows_the_selected_warning(
    warnings: Seq<WarningView>,
    selected: int,
    inspecting: bool,
)
    requires
        0 <= selected < warnings.len(),
    ensures
        ({
            let panel = panel_of(warnings, selected, inspecting);
            let w = warnings[selected];
            let body = panel.body;
            let n = body.len();
            &&& panel.top.len() == 4
            &&& reads(panel.top[0], "⚠  Build completed with warnings"@, Look::YellowBold)
            &&& reads(panel.top[1], seq![], Look::Plain)
            &&& warnings.len() == 1 ==> reads(
                panel.top[2],
                decimal(1) + " / "@ + decimal(1) + " warning"@,
                Look::Dim,
            )
            &&& warnings.len() > 1 ==> reads(
                panel.top[2],
                decimal((selected + 1) as nat) + " / "@ + decimal(warnings.len()) + " warning"@
                    + "s"@,
                Look::Dim,
            )
            &&& reads(panel.top[3], seq![], Look::Plain)
            &&& inspecting ==> n == 1 && reads(body[0], w.rendered, Look::Plain)
            &&& !inspecting ==> {
                &&& n >= 1 && reads(body[0], w.message, Look::Plain)
                &&& n == 1 + (if w.location is Some {
                    1int
                } else {
                    0
                }) + (if w.help is Some {
                    2int
                } else {
                    0
                })
                &&& w.location is Some ==> reads(body[1], w.location->0, Look::Dim)
                &&& w.help is Some ==> reads(body[n - 2], seq![], Look::Plain) && reads(
                    body[n - 1],
                    "help: "@ + w.help->0,
                    Look::Dim,
                )
            }
            &&& panel.bottom.len() == 2
            &&& reads(panel.bottom[0], seq![], Look::Plain)
            &&& reads(
                panel.bottom[1],
                "↑↓ navigate   Enter inspect   Esc dismiss"@,
                Look::Dim,
            )
        }),
{
    if warnings.len() == 1 {
        assert(decimal(1) + " / "@ + decimal(1) + " warning"@ + Seq::<char>::empty() =~= decimal(1)
            + " / "@ + decimal(1) + " warning"@);
    }
}

/// The summary says that the build failed exactly where it did. One that succeeded is announced in
/// green, and in yellow with the number of warnings where there are any. Below that stand the libs
/// that were compiled and the disk that was used.
pub proof fn law_summary_tells_the_outcome(
    project: Seq<char>,
    ok: bool,
    nanos: u64,
    warnings: nat,
    libs: nat,
    grew_by: u64,
)
    ensures
        ({
            let rows = summary_of(project, ok, nanos, warnings, libs, grew_by);
            let head = rows[0].cells;
            let look = if !ok {
                Look::RedBold
            } else if warnings > 0 {
                Look::YellowBold
            } else {
                Look::GreenBold
            };
            &&& rows.len() == 3
            &&& head.len() == if ok && warnings > 0 {
                3int
            } else {
                2
            }
            &&& !ok ==> head[0] == (CellView::Text {
                text: "✗ "@ + project + " failed after "@,
                look,
            })
            &&& ok && warnings == 0 ==> head[0] == (CellView::Text {
                text: "✓ "@ + project + " built in "@,
                look,
            })
            &&& ok && warnings > 0 ==> head[0] == (CellView::Text {
                text: "⚠ "@ + project + " built in "@,
                look,
            })
            &&& head[1] == (CellView::Elapsed { nanos, look })
            &&& ok && warnings == 1 ==> head[2] == (CellView::Text {
                text: " ("@ + decimal(1) + " warning"@ + ")"@,
                look,
            })
            &&& ok && warnings > 1 ==> head[2] == (CellView::Text {
                text: " ("@ + decimal(warnings) + " warning"@ + "s"@ + ")"@,
                look,
            })
            &&& rows[1].cells.len() == 2
            &&& rows[1].cells[0] == (CellView::Text {
                text: "  libs compiled  "@,
                look: Look::Dim,
            })
            &&& rows[1].cells[1] == (CellView::Text { text: decimal(libs), look: Look::Plain })
            &&& rows[2].cells.len() == 2
            &&& rows[2].cells[0] == (CellView::Text {
                text: "  disk used      "@,
                look: Look::Dim,
            })
            &&& rows[2].cells[1] == (CellView::Text {
                text: size_text(grew_by as nat),
                look: Look::Plain,
            })
            &&& rows[0].fade is None && rows[1].fade is None && rows[2].fade is None
        }),
{
    if ok && warnings == 1 {
        assert(" ("@ + decimal(1) + " warning"@ + Seq::<char>::empty() + ")"@ =~= " ("@ + decimal(1)
            + " warning"@ + ")"@);
    }
}

} // verus!
