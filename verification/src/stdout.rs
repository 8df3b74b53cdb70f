//! Captured test output: which lines stand out, and how they are wrapped to the terminal.

use crate::text::{
    begins_with, lines, lines_of, occurs, split_chars, split_once, strip_prefix,
};
use vstd::prelude::*;

verus! {

/// Coarse jump size for PageUp/PageDown and for landing near the tail when a test is first
/// expanded. Not the actual display cap: that is sized to what the real terminal can show.
pub const STDOUT_PAGE: usize = 20;

/// The scroll position that leaves one page of lines below it.
pub open spec fn tail_of(stdout: Seq<char>) -> nat {
    if lines_of(stdout).len() <= STDOUT_PAGE {
        0
    } else {
        (lines_of(stdout).len() - STDOUT_PAGE) as nat
    }
}

/// Approximate scroll position that lands near the tail (usually where the panic message is).
pub fn tail_scroll(stdout: &str) -> (r: usize)
    ensures
        r == tail_of(stdout@),
{
    let all = lines(stdout);
    assert(all.deep_view().len() == all.len());
    all.len().saturating_sub(STDOUT_PAGE)
}

/// A line cut into pieces of `width` characters, the last one holding what is left. A `width` of
/// zero cuts nothing.
pub open spec fn wrapped(line: Seq<char>, width: nat) -> Seq<Seq<char>>
    decreases line.len(),
{
    if width == 0 || line.len() <= width {
        seq![line]
    } else {
        seq![line.take(width as int)] + wrapped(line.skip(width as int), width)
    }
}

/// Hard-wraps `line` to `width` chars.
pub fn wrap_line<'a>(line: &'a str, width: usize) -> (r: Vec<&'a str>)
    ensures
        r.deep_view() == wrapped(line@, width as nat),
{
    let mut out: Vec<&'a str> = Vec::new();
    if width == 0 {
        out.push(line);
        assert(out.deep_view() =~= seq![line@]);
        return out;
    }
    let mut rest: &'a str = line;
    assert(out.deep_view() + wrapped(rest@, width as nat) =~= wrapped(line@, width as nat));
    loop
        invariant
            width > 0,
            out.deep_view() + wrapped(rest@, width as nat) == wrapped(line@, width as nat),
        decreases rest@.len(),
    {
        let ghost before = out.deep_view();
        match split_chars(rest, width) {
            Some((head, tail)) => {
                out.push(head);
                assert(out.deep_view() =~= before + seq![head@]);
                assert(out.deep_view() + wrapped(tail@, width as nat) =~= before + wrapped(
                    rest@,
                    width as nat,
                ));
                rest = tail;
            },
            None => {
                out.push(rest);
                assert(out.deep_view() =~= before + seq![rest@]);
                return out;
            },
        }
    }
}

/// How a stdout line should stand out. Panic message and assert diff get styled, the rest stays
/// `Plain`.
#[derive(Clone, Copy, PartialEq, Eq, Structural, Debug)]
pub enum StdoutStyle {
    Plain,
    Message,
    Left,
    Right,
}

impl DeepView for StdoutStyle {
    type V = StdoutStyle;

    open spec fn deep_view(&self) -> StdoutStyle {
        *self
    }
}

/// A line and how it stands out.
pub type StyledText = (StdoutStyle, Seq<char>);

/// How many lines the panic report that begins with `lines[0]` takes up: the line that says where
/// it panicked, the message, and the two sides of a failed `assert_eq!` as far as they follow.
/// One where `lines[0]` begins no report.
pub open spec fn report_len(lines: Seq<Seq<char>>) -> int
    recommends
        lines.len() > 0,
{
    if !occurs(lines[0], "panicked at "@) || lines.len() < 2 {
        1
    } else if lines.len() < 3 || !begins_with(lines[2], "  left: "@) {
        2
    } else if lines.len() < 4 || !begins_with(lines[3], " right: "@) {
        3
    } else {
        4
    }
}

/// The style of the line at `i` in a panic report.
pub open spec fn report_style(i: int) -> StdoutStyle {
    if i == 0 {
        StdoutStyle::Plain
    } else if i == 1 {
        StdoutStyle::Message
    } else if i == 2 {
        StdoutStyle::Left
    } else {
        StdoutStyle::Right
    }
}

/// The lines with their styles: panic reports one after the other, and the plain lines between
/// them.
pub open spec fn classified(lines: Seq<Seq<char>>) -> Seq<StyledText>
    decreases lines.len(),
{
    if lines.len() == 0 {
        seq![]
    } else {
        let n = report_len(lines);
        Seq::new(n as nat, |i: int| (report_style(i), lines[i])) + classified(lines.skip(n))
    }
}

fn contains(s: &str, pattern: &str) -> (r: bool)
    ensures
        r == occurs(s@, pattern@),
{
    split_once(s, pattern).is_some()
}

/// Tags the line after `panicked at ...:` as the message, and libtest's `  left: `/` right: `
/// pair after it, when present, as the diff.
pub fn classify_stdout<'a>(stdout: &'a str) -> (r: Vec<(StdoutStyle, &'a str)>)
    ensures
        r.deep_view() == classified(lines_of(stdout@)),
{
    let all = lines(stdout);
    let ghost text = all.deep_view();
    let mut out: Vec<(StdoutStyle, &'a str)> = Vec::new();
    let mut i: usize = 0;
    assert(text.skip(0) =~= text);
    assert(out.deep_view() + classified(text.skip(0)) =~= classified(text));
    while i < all.len()
        invariant
            i <= all.len(),
            text == all.deep_view(),
            out.deep_view() + classified(text.skip(i as int)) == classified(text),
        decreases all.len() - i,
    {
        let ghost start = i as int;
        let ghost before = out.deep_view();
        let ghost rest = text.skip(start);
        assert(forall|k: int| 0 <= k < rest.len() ==> rest[k] == all[start + k]@);
        let line = all[i];
        out.push((StdoutStyle::Plain, line));
        i = i + 1;
        if contains(line, "panicked at ") && i < all.len() {
            out.push((StdoutStyle::Message, all[i]));
            i = i + 1;
            if i < all.len() && strip_prefix(all[i], "  left: ").is_some() {
                out.push((StdoutStyle::Left, all[i]));
                i = i + 1;
                if i < all.len() && strip_prefix(all[i], " right: ").is_some() {
                    out.push((StdoutStyle::Right, all[i]));
                    i = i + 1;
                }
            }
        }
        proof {
            let n = report_len(rest);
            assert(n == i - start);
            assert(rest.skip(n) =~= text.skip(i as int));
            let report = Seq::new(n as nat, |k: int| (report_style(k), rest[k]));
            assert(out.deep_view() =~= before + report);
            assert(out.deep_view() + classified(text.skip(i as int)) =~= before + classified(rest));
        }
    }
    assert(text.skip(i as int) =~= Seq::<Seq<char>>::empty());
    assert(out.deep_view() =~= classified(text));
    out
}

/// Every piece of a wrapped line keeps the line's style.
pub open spec fn wrapped_styled(items: Seq<StyledText>, width: nat) -> Seq<StyledText>
    decreases items.len(),
{
    if items.len() == 0 {
        seq![]
    } else {
        let last = items.last();
        wrapped_styled(items.drop_last(), width) + wrapped(last.1, width).map_values(
            |piece: Seq<char>| (last.0, piece),
        )
    }
}

/// The rows that `stdout` takes up on a terminal that shows `width` characters of a line.
pub fn styled_rows<'a>(stdout: &'a str, width: usize) -> (r: Vec<(StdoutStyle, &'a str)>)
    ensures
        r.deep_view() == wrapped_styled(classified(lines_of(stdout@)), width as nat),
{
    let items = classify_stdout(stdout);
    let ghost all = items.deep_view();
    let mut out: Vec<(StdoutStyle, &'a str)> = Vec::new();
    let mut i: usize = 0;
    assert(all.take(0) =~= Seq::<StyledText>::empty());
    assert(out.deep_view() =~= wrapped_styled(all.take(0), width as nat));
    while i < items.len()
        invariant
            i <= items.len(),
            all == items.deep_view(),
            out.deep_view() == wrapped_styled(all.take(i as int), width as nat),
        decreases items.len() - i,
    {
        let ghost before = out.deep_view();
        let (style, line) = items[i];
        let pieces = wrap_line(line, width);
        let ghost styled = pieces.deep_view().map_values(|piece: Seq<char>| (style, piece));
        let mut j: usize = 0;
        assert(out.deep_view() =~= before + styled.take(0));
        while j < pieces.len()
            invariant
                j <= pieces.len(),
                styled == pieces.deep_view().map_values(|piece: Seq<char>| (style, piece)),
                out.deep_view() == before + styled.take(j as int),
            decreases pieces.len() - j,
        {
            let ghost shown = out.deep_view();
            out.push((style, pieces[j]));
            proof {
                assert(pieces.deep_view()[j as int] == pieces[j as int]@);
                assert(out.deep_view() =~= shown.push(styled[j as int]));
                assert(styled.take(j + 1) =~= styled.take(j as int).push(styled[j as int]));
                assert(out.deep_view() =~= before + styled.take(j + 1));
            }
            j = j + 1;
        }
        proof {
            let next = all.take(i + 1);
            assert(next.drop_last() =~= all.take(i as int));
            assert(next.last() == (style, line@));
            assert(styled.take(j as int) =~= styled);
        }
        i = i + 1;
    }
    assert(all.take(i as int) =~= all);
    out
}

// ---- what holds of wrapping and styling ----

/// The pieces, one after the other.
pub open spec fn glued(pieces: Seq<Seq<char>>) -> Seq<char>
    decreases pieces.len(),
{
    if pieces.len() == 0 {
        seq![]
    } else {
        pieces[0] + glued(pieces.skip(1))
    }
}

/// Wrapping loses nothing and adds nothing: the pieces, one after the other, are the line again.
pub proof fn law_wrapping_keeps_the_text(line: Seq<char>, width: nat)
    ensures
        glued(wrapped(line, width)) == line,
    decreases line.len(),
{
    if width == 0 || line.len() <= width {
        assert(seq![line].skip(1) =~= Seq::<Seq<char>>::empty());
        assert(glued(seq![line].skip(1)) =~= Seq::<char>::empty());
        assert(glued(seq![line]) =~= line);
    } else {
        let rest = line.skip(width as int);
        law_wrapping_keeps_the_text(rest, width);
        assert(wrapped(line, width).skip(1) =~= wrapped(rest, width));
        assert(line.take(width as int) + rest =~= line);
    }
}

/// Every piece but the last is exactly as wide as asked, the last is no wider, and there is at
/// least one.
pub proof fn law_pieces_fit(line: Seq<char>, width: nat)
    requires
        width > 0,
    ensures
        wrapped(line, width).len() > 0,
        wrapped(line, width).last().len() <= width,
        forall|i: int|
            0 <= i < wrapped(line, width).len() - 1 ==> (#[trigger] wrapped(line, width)[i]).len()
                == width,
    decreases line.len(),
{
    if line.len() > width {
        let rest = line.skip(width as int);
        law_pieces_fit(rest, width);
        let pieces = wrapped(line, width);
        assert forall|i: int| 0 <= i < pieces.len() - 1 implies (#[trigger] pieces[i]).len()
            == width by {
            if i > 0 {
                assert(pieces[i] == wrapped(rest, width)[i - 1]);
            }
        }
    }
}

/// A line that fits is left alone.
pub proof fn law_short_line_is_left_alone(line: Seq<char>, width: nat)
    requires
        line.len() <= width,
    ensures
        wrapped(line, width) == seq![line],
{
}

/// Styling keeps every line, in order.
pub proof fn law_styling_keeps_every_line(lines: Seq<Seq<char>>)
    ensures
        classified(lines).len() == lines.len(),
        forall|i: int| 0 <= i < lines.len() ==> (#[trigger] classified(lines)[i]).1 == lines[i],
    decreases lines.len(),
{
    if lines.len() > 0 {
        let n = report_len(lines);
        let rest = lines.skip(n);
        law_styling_keeps_every_line(rest);
        assert forall|i: int| 0 <= i < lines.len() implies (#[trigger] classified(lines)[i]).1
            == lines[i] by {
            if i >= n {
                assert(classified(lines)[i] == classified(rest)[i - n]);
            }
        }
    }
}

/// Only the line after one that says `panicked at ` is a message; a left side follows a message
/// directly and a right side a left side.
pub proof fn law_only_panic_reports_stand_out(lines: Seq<Seq<char>>, i: int)
    requires
        0 <= i < lines.len(),
    ensures
        classified(lines).len() == lines.len(),
        classified(lines)[i].0 is Message ==> i > 0 && classified(lines)[i - 1].0 is Plain
            && occurs(lines[i - 1], "panicked at "@),
        classified(lines)[i].0 is Left ==> i > 0 && classified(lines)[i - 1].0 is Message
            && begins_with(lines[i], "  left: "@),
        classified(lines)[i].0 is Right ==> i > 0 && classified(lines)[i - 1].0 is Left
            && begins_with(lines[i], " right: "@),
    decreases lines.len(),
{
    law_styling_keeps_every_line(lines);
    let n = report_len(lines);
    let rest = lines.skip(n);
    if i >= n {
        law_only_panic_reports_stand_out(rest, i - n);
        assert(classified(lines)[i] == classified(rest)[i - n]);
        if i > n {
            assert(classified(lines)[i - 1] == classified(rest)[i - n - 1]);
        }
    }
}

/// No row of wrapped output is wider than the terminal shows.
pub proof fn law_rows_fit(items: Seq<StyledText>, width: nat)
    requires
        width > 0,
    ensures
        forall|i: int|
            0 <= i < wrapped_styled(items, width).len() ==> (#[trigger] wrapped_styled(
                items,
                width,
            )[i]).1.len() <= width,
    decreases items.len(),
{
    if items.len() > 0 {
        let shorter = items.drop_last();
        law_rows_fit(shorter, width);
        law_pieces_fit(items.last().1, width);
        let pieces = wrapped(items.last().1, width);
        let head = wrapped_styled(shorter, width);
        let all = wrapped_styled(items, width);
        assert forall|i: int| 0 <= i < all.len() implies (#[trigger] all[i]).1.len() <= width by {
            if i < head.len() {
                assert(all[i] == head[i]);
            } else {
                let k = i - head.len();
                assert(all[i].1 == pieces[k]);
                if k == pieces.len() - 1 {
                    assert(pieces[k] == pieces.last());
                }
            }
        }
    }
}

/// The tail leaves twenty lines below it, or shows the output from its first line where there are no
/// more than that.
pub proof fn law_tail_leaves_a_page(stdout: Seq<char>)
    ensures
        lines_of(stdout).len() <= 20 ==> tail_of(stdout) == 0,
        lines_of(stdout).len() > 20 ==> tail_of(stdout) + 20 == lines_of(stdout).len(),
{
}

/// A width of zero leaves a line whole.
pub proof fn law_zero_width_cuts_nothing(line: Seq<char>)
    ensures
        wrapped(line, 0) == seq![line],
{
}

/// The style of a line follows from the line before it: the first line is plain; after a plain line
/// that says `panicked at ` comes the message; after a message comes the left side where the line
/// begins as one, and after that the right side where the next one does; every other line is plain.
pub proof fn law_style_follows_from_the_line_before(lines: Seq<Seq<char>>, i: int)
    requires
        0 <= i < lines.len(),
    ensures
        classified(lines).len() == lines.len(),
        i == 0 ==> classified(lines)[i].0 is Plain,
        i > 0 ==> {
            let before = classified(lines)[i - 1].0;
            let message = before is Plain && occurs(lines[i - 1], "panicked at "@);
            let left = before is Message && begins_with(lines[i], "  left: "@);
            let right = before is Left && begins_with(lines[i], " right: "@);
            &&& classified(lines)[i].0 is Message <==> message
            &&& classified(lines)[i].0 is Left <==> left
            &&& classified(lines)[i].0 is Right <==> right
            &&& classified(lines)[i].0 is Plain <==> !message && !left && !right
        },
    decreases lines.len(),
{
    law_styling_keeps_every_line(lines);
    let n = report_len(lines);
    let rest = lines.skip(n);
    let all = classified(lines);
    if i >= n {
        law_styling_keeps_every_line(rest);
        law_style_follows_from_the_line_before(rest, i - n);
        assert(all[i] == classified(rest)[i - n]);
        if i > n {
            assert(all[i - 1] == classified(rest)[i - n - 1]);
            assert(rest[i - n - 1] == lines[i - 1]);
        } else {
            assert(all[i - 1] == (report_style(n - 1), lines[n - 1]));
        }
    } else {
        assert(all[i] == (report_style(i), lines[i]));
        if i > 0 {
            assert(all[i - 1] == (report_style(i - 1), lines[i - 1]));
        }
    }
}

/// The rows of several lines are the rows of each of them in turn. Those of one line all have its
/// style, and their texts, one after the other, are the line again.
pub proof fn law_rows_are_the_pieces_of_each_line(
    items: Seq<StyledText>,
    item: StyledText,
    width: nat,
)
    ensures
        wrapped_styled(items.push(item), width) == wrapped_styled(items, width) + wrapped_styled(
            seq![item],
            width,
        ),
        forall|i: int|
            0 <= i < wrapped_styled(seq![item], width).len() ==> (#[trigger] wrapped_styled(
                seq![item],
                width,
            )[i]).0 == item.0,
        glued(
            wrapped_styled(seq![item], width).map_values(|row: StyledText| row.1),
        ) == item.1,
        wrapped_styled(seq![], width).len() == 0,
{
    assert(items.push(item).drop_last() =~= items);
    assert(seq![item].drop_last() =~= Seq::<StyledText>::empty());
    let pieces = wrapped(item.1, width).map_values(|piece: Seq<char>| (item.0, piece));
    assert(wrapped_styled(seq![item].drop_last(), width) =~= Seq::<StyledText>::empty());
    assert(wrapped_styled(seq![item], width) =~= pieces);
    assert(pieces.map_values(|row: StyledText| row.1) =~= wrapped(item.1, width));
    law_wrapping_keeps_the_text(item.1, width);
}

} // verus!
