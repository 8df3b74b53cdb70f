use cargo_pretty::stdout::{
    classify_stdout, styled_rows, tail_scroll, wrap_line, StdoutStyle, STDOUT_PAGE,
};
use cargo_pretty::text::lines;

#[test]
fn wraps_long_lines_and_leaves_short_ones_alone() {
    assert_eq!(wrap_line("short", 10), vec!["short"]);
    assert_eq!(wrap_line("abcdefghij", 4), vec!["abcd", "efgh", "ij"]);
    assert_eq!(wrap_line("", 4), vec![""]);
}

#[test]
fn classifies_the_panic_message_and_assert_eq_diff() {
    let stdout = "thread 'x' panicked at src/lib.rs:1:1:\n\
        assertion `left == right` failed\n  left: `1`\n right: `2`\n\
        note: run with `RUST_BACKTRACE=1`";
    assert_eq!(
        classify_stdout(stdout),
        vec![
            (
                StdoutStyle::Plain,
                "thread 'x' panicked at src/lib.rs:1:1:"
            ),
            (StdoutStyle::Message, "assertion `left == right` failed"),
            (StdoutStyle::Left, "  left: `1`"),
            (StdoutStyle::Right, " right: `2`"),
            (StdoutStyle::Plain, "note: run with `RUST_BACKTRACE=1`"),
        ]
    );
}

#[test]
fn leaves_a_plain_panic_message_uncolored_without_a_diff() {
    let stdout = "thread 'x' panicked at src/lib.rs:1:1:\n\
                   called `Option::unwrap()` on a `None` value";
    assert_eq!(
        classify_stdout(stdout),
        vec![
            (
                StdoutStyle::Plain,
                "thread 'x' panicked at src/lib.rs:1:1:"
            ),
            (
                StdoutStyle::Message,
                "called `Option::unwrap()` on a `None` value"
            ),
        ]
    );
}

#[test]
fn zero_width_wraps_nothing() {
    assert_eq!(wrap_line("abcdef", 0), vec!["abcdef"]);
}

#[test]
fn a_line_of_exactly_the_width_is_one_piece() {
    assert_eq!(wrap_line("abcd", 4), vec!["abcd"]);
    assert_eq!(wrap_line("abcdefgh", 4), vec!["abcd", "efgh"]);
}

#[test]
fn wraps_between_characters_and_not_between_bytes() {
    assert_eq!(wrap_line("aé→😀bé→😀", 3), vec!["aé→", "😀bé", "→😀"]);
}

#[test]
fn wrapped_pieces_make_up_the_line_again() {
    let line = "zwölf Boxkämpfer jagen Viktor quer über den großen Sylter Deich";
    for width in 1..70 {
        let pieces = wrap_line(line, width);
        assert_eq!(pieces.concat(), line);
        for piece in &pieces[..pieces.len() - 1] {
            assert_eq!(piece.chars().count(), width);
        }
        assert!(pieces[pieces.len() - 1].chars().count() <= width);
    }
}

#[test]
fn lines_are_those_of_the_standard_library() {
    for text in [
        "", "\n", "a", "a\n", "a\nb", "a\r\nb\r\n", "a\r", "a\r\r\nb", "\r\n", "\n\n", "x\n\ny\r",
        "é\r\n→\n",
    ] {
        let expected: Vec<&str> = text.lines().collect();
        assert_eq!(lines(text), expected);
    }
}

#[test]
fn a_message_at_the_very_end_has_no_diff() {
    assert_eq!(
        classify_stdout("panicked at here:"),
        vec![(StdoutStyle::Plain, "panicked at here:")]
    );
    assert_eq!(
        classify_stdout("panicked at here:\nmessage\n  left: 1"),
        vec![
            (StdoutStyle::Plain, "panicked at here:"),
            (StdoutStyle::Message, "message"),
            (StdoutStyle::Left, "  left: 1"),
        ]
    );
    assert_eq!(
        classify_stdout("panicked at here:\nmessage\n right: 1"),
        vec![
            (StdoutStyle::Plain, "panicked at here:"),
            (StdoutStyle::Message, "message"),
            (StdoutStyle::Plain, " right: 1"),
        ]
    );
}

#[test]
fn a_second_report_stands_out_like_the_first() {
    assert_eq!(
        classify_stdout("panicked at a\nm\npanicked at b\nn"),
        vec![
            (StdoutStyle::Plain, "panicked at a"),
            (StdoutStyle::Message, "m"),
            (StdoutStyle::Plain, "panicked at b"),
            (StdoutStyle::Message, "n"),
        ]
    );
}

#[test]
fn styling_keeps_every_line_in_order() {
    let stdout = "x\npanicked at y\nz\n  left: 1\nq\n";
    let texts: Vec<&str> = classify_stdout(stdout).into_iter().map(|(_, t)| t).collect();
    assert_eq!(texts, vec!["x", "panicked at y", "z", "  left: 1", "q"]);
}

#[test]
fn every_piece_of_a_wrapped_line_keeps_its_style() {
    assert_eq!(
        styled_rows("panicked at\nx panicked at y\nabcdef", 4),
        vec![
            (StdoutStyle::Plain, "pani"),
            (StdoutStyle::Plain, "cked"),
            (StdoutStyle::Plain, " at"),
            (StdoutStyle::Plain, "x pa"),
            (StdoutStyle::Plain, "nick"),
            (StdoutStyle::Plain, "ed a"),
            (StdoutStyle::Plain, "t y"),
            (StdoutStyle::Message, "abcd"),
            (StdoutStyle::Message, "ef"),
        ]
    );
}

#[test]
fn the_tail_leaves_one_page_below() {
    assert_eq!(STDOUT_PAGE, 20);
    assert_eq!(tail_scroll(""), 0);
    assert_eq!(tail_scroll(&"x\n".repeat(20)), 0);
    assert_eq!(tail_scroll(&"x\n".repeat(21)), 1);
    assert_eq!(tail_scroll(&"x\n".repeat(55)), 35);
}
