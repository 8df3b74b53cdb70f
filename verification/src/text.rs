//! Strings as sequences of characters: searching, splitting into lines, padding and printing
//! numbers.

use vstd::prelude::*;
use vstd::string::*;
use vstd::utf8::*;

verus! {

/// `pattern` stands in `s` at index `i`.
pub open spec fn occurs_at(s: Seq<char>, pattern: Seq<char>, i: int) -> bool {
    0 <= i && i + pattern.len() <= s.len() && s.subrange(i, i + pattern.len()) == pattern
}

/// `pattern` stands somewhere in `s`.
pub open spec fn occurs(s: Seq<char>, pattern: Seq<char>) -> bool {
    exists|i: int| occurs_at(s, pattern, i)
}

/// `i` is the first index at which `pattern` stands in `s`.
pub open spec fn first_at(s: Seq<char>, pattern: Seq<char>, i: int) -> bool {
    occurs_at(s, pattern, i) && forall|j: int| 0 <= j < i ==> !occurs_at(s, pattern, j)
}

/// `s` begins with `prefix`.
pub open spec fn begins_with(s: Seq<char>, prefix: Seq<char>) -> bool {
    prefix.len() <= s.len() && s.take(prefix.len() as int) == prefix
}

/// `s` ends with `suffix`.
pub open spec fn ends_with(s: Seq<char>, suffix: Seq<char>) -> bool {
    suffix.len() <= s.len() && s.skip(s.len() - suffix.len()) == suffix
}

/// The index of the first `c` in `s`, or the length of `s` where there is none.
pub open spec fn find_char(s: Seq<char>, c: char) -> int
    decreases s.len(),
{
    if s.len() == 0 || s[0] == c {
        0
    } else {
        1 + find_char(s.skip(1), c)
    }
}

/// What stands in `s` after the first `pattern`.
pub open spec fn after_first(s: Seq<char>, pattern: Seq<char>) -> Option<Seq<char>> {
    if occurs(s, pattern) {
        Some(s.skip((choose|i: int| first_at(s, pattern, i)) + pattern.len()))
    } else {
        None
    }
}

/// A text that may be missing, the empty one where it is.
pub open spec fn or_empty(text: Option<Seq<char>>) -> Seq<char> {
    match text {
        Some(text) => text,
        None => Seq::empty(),
    }
}

/// There is one first index, and `after_first` goes by it.
pub(crate) proof fn lemma_after_first(s: Seq<char>, pattern: Seq<char>, i: int)
    requires
        first_at(s, pattern, i),
    ensures
        after_first(s, pattern) == Some(s.skip(i + pattern.len())),
{
    let j = choose|j: int| first_at(s, pattern, j);
    assert(first_at(s, pattern, j));
    if i < j {
        assert(!occurs_at(s, pattern, i));
    } else if j < i {
        assert(!occurs_at(s, pattern, j));
    }
}

/// The two strings hold the same characters. Calls `str`'s `==`.
#[verifier::external_body]
pub(crate) fn same_text(a: &str, b: &str) -> (r: bool)
    ensures
        r == (a@ == b@),
{
    a == b
}

/// Calls `str::split_once`: what stands before and after the first occurrence of `separator`,
/// `None` where there is none.
#[verifier::external_body]
pub(crate) fn split_once<'a>(s: &'a str, separator: &str) -> (r: Option<(&'a str, &'a str)>)
    ensures
        r is None <==> !occurs(s@, separator@),
        r matches Some((before, after)) ==> {
            &&& first_at(s@, separator@, before@.len() as int)
            &&& before@ == s@.take(before@.len() as int)
            &&& after@ == s@.skip((before@.len() + separator@.len()) as int)
        },
{
    s.split_once(separator)
}

/// Calls `str::rsplit_once`: what stands before and after the last `separator`, `None` where
/// there is none.
#[verifier::external_body]
pub(crate) fn rsplit_once<'a>(s: &'a str, separator: char) -> (r: Option<(&'a str, &'a str)>)
    ensures
        r is None <==> !s@.contains(separator),
        r matches Some((before, after)) ==> {
            &&& s@ == before@.push(separator) + after@
            &&& !after@.contains(separator)
        },
{
    s.rsplit_once(separator)
}

/// Calls `str::strip_prefix`: the rest of `s` where it begins with `prefix`, `None` where it
/// does not.
#[verifier::external_body]
pub(crate) fn strip_prefix<'a>(s: &'a str, prefix: &str) -> (r: Option<&'a str>)
    ensures
        r is Some <==> begins_with(s@, prefix@),
        r matches Some(rest) ==> rest@ == s@.skip(prefix@.len() as int),
{
    s.strip_prefix(prefix)
}

/// Calls `str::strip_suffix`: the rest of `s` where it ends with `suffix`, `None` where it does
/// not.
#[verifier::external_body]
pub(crate) fn strip_suffix<'a>(s: &'a str, suffix: &str) -> (r: Option<&'a str>)
    ensures
        r is Some <==> ends_with(s@, suffix@),
        r matches Some(rest) ==> rest@ == s@.take(s@.len() - suffix@.len()),
{
    s.strip_suffix(suffix)
}

/// `String::push` adds one character at the end.
pub assume_specification[ String::push ](s: &mut String, c: char)
    ensures
        final(s)@ == old(s)@.push(c),
;

/// A character with Unicode's `White_Space` property.
pub open spec fn white_space(c: char) -> bool {
    ||| '\t' <= c <= '\r'
    ||| c == ' '
    ||| c == '\u{85}'
    ||| c == '\u{a0}'
    ||| c == '\u{1680}'
    ||| '\u{2000}' <= c <= '\u{200a}'
    ||| '\u{2028}' <= c <= '\u{2029}'
    ||| c == '\u{202f}'
    ||| c == '\u{205f}'
    ||| c == '\u{3000}'
}

/// `char::is_whitespace` tells whether a character has the `White_Space` property, which the
/// Unicode Character Database gives to the characters of `white_space` and to no other.
pub assume_specification[ char::is_whitespace ](c: char) -> (r: bool)
    ensures
        r == white_space(c),
;

// ---- lines ----

/// A line without the carriage return that stands before its line feed.
pub open spec fn without_cr(line: Seq<char>) -> Seq<char> {
    if line.len() > 0 && line.last() == '\r' {
        line.drop_last()
    } else {
        line
    }
}

/// The lines of a text. A line ends in `\n` or `\r\n`, which belong to no line; the last line
/// need not end in one, and a text that ends in one has no empty line after it.
pub open spec fn lines_of(s: Seq<char>) -> Seq<Seq<char>>
    decreases s.len(),
{
    let end = find_char(s, '\n');
    if s.len() == 0 {
        seq![]
    } else if !(0 <= end < s.len()) {
        seq![s]
    } else {
        seq![without_cr(s.take(end))] + lines_of(s.skip(end + 1))
    }
}

pub(crate) proof fn lemma_find_char(s: Seq<char>, c: char)
    ensures
        0 <= find_char(s, c) <= s.len(),
        find_char(s, c) < s.len() ==> s[find_char(s, c)] == c,
        forall|i: int| 0 <= i < find_char(s, c) ==> s[i] != c,
    decreases s.len(),
{
    if s.len() != 0 && s[0] != c {
        lemma_find_char(s.skip(1), c);
        assert forall|i: int| 0 <= i < find_char(s, c) implies s[i] != c by {
            if i > 0 {
                assert(s.skip(1)[i - 1] == s[i]);
            }
        }
    }
}

/// One character as a pattern is found where the character is.
pub(crate) proof fn lemma_find_single(s: Seq<char>, c: char)
    ensures
        occurs(s, seq![c]) <==> find_char(s, c) < s.len(),
        forall|i: int| first_at(s, seq![c], i) ==> i == find_char(s, c),
{
    lemma_find_char(s, c);
    let at = find_char(s, c);
    assert forall|i: int| #[trigger]
        occurs_at(s, seq![c], i) <==> (0 <= i < s.len() && s[i] == c) by {
        if 0 <= i < s.len() {
            assert(s.subrange(i, i + 1) =~= seq![s[i]]);
            assert(s.subrange(i, i + 1)[0] == s[i]);
        }
    }
    if at < s.len() {
        assert(occurs_at(s, seq![c], at));
    }
    assert forall|i: int| first_at(s, seq![c], i) implies i == at by {
        assert(occurs_at(s, seq![c], i));
        if at < i {
            assert(occurs_at(s, seq![c], at));
        }
    }
}

/// The lines of `s`, as `str::lines` gives them.
pub fn lines<'a>(s: &'a str) -> (r: Vec<&'a str>)
    ensures
        r.deep_view() == lines_of(s@),
{
    let mut out: Vec<&'a str> = Vec::new();
    let mut rest: &'a str = s;
    proof {
        reveal_strlit("\n");
        reveal_strlit("\r");
        assert("\n"@ =~= seq!['\n']);
        assert("\r"@ =~= seq!['\r']);
    }
    assert(out.deep_view() + lines_of(rest@) =~= lines_of(s@));
    while !rest.is_empty()
        invariant
            out.deep_view() + lines_of(rest@) == lines_of(s@),
            "\n"@ == seq!['\n'],
            "\r"@ == seq!['\r'],
        decreases rest@.len(),
    {
        let ghost before = out.deep_view();
        proof {
            lemma_find_single(rest@, '\n');
            lemma_find_char(rest@, '\n');
        }
        match split_once(rest, "\n") {
            Some((line, after)) => {
                let kept = match strip_suffix(line, "\r") {
                    Some(bare) => bare,
                    None => line,
                };
                proof {
                    assert(line@ == rest@.take(find_char(rest@, '\n')));
                    if ends_with(line@, "\r"@) {
                        assert(line@.skip(line@.len() - 1)[0] == line@.last());
                        assert(line@.take(line@.len() - 1) =~= line@.drop_last());
                    } else if line@.len() > 0 && line@.last() == '\r' {
                        assert(line@.skip(line@.len() - 1) =~= seq!['\r']);
                    }
                    assert(kept@ == without_cr(line@));
                }
                out.push(kept);
                assert(out.deep_view() =~= before + seq![kept@]);
                rest = after;
                assert(out.deep_view() + lines_of(rest@) =~= lines_of(s@));
            },
            None => {
                let whole = rest;
                out.push(whole);
                proof {
                    assert(lines_of(whole@) =~= seq![whole@]);
                    assert(out.deep_view() =~= before + seq![whole@]);
                }
                rest = "";
                proof {
                    reveal_strlit("");
                    assert(lines_of(rest@) =~= Seq::<Seq<char>>::empty());
                    assert(out.deep_view() + lines_of(rest@) =~= lines_of(s@));
                }
            },
        }
    }
    assert(out.deep_view() =~= lines_of(s@));
    out
}

// ---- characters and bytes ----

proof fn lemma_encode_concat(a: Seq<char>, b: Seq<char>)
    ensures
        encode_utf8(a + b) == encode_utf8(a) + encode_utf8(b),
    decreases a.len(),
{
    if a.len() == 0 {
        assert(a + b =~= b);
        assert(encode_utf8(a) + encode_utf8(b) =~= encode_utf8(b));
    } else {
        lemma_encode_concat(a.drop_first(), b);
        assert((a + b).drop_first() =~= a.drop_first() + b);
        assert(encode_utf8(a + b) =~= encode_utf8(a) + encode_utf8(b));
    }
}

proof fn lemma_encode_boundary(a: Seq<char>, b: Seq<char>)
    ensures
        is_char_boundary(encode_utf8(a + b), encode_utf8(a).len() as int),
    decreases a.len(),
{
    encode_utf8_valid_utf8(a + b);
    if a.len() == 0 {
    } else {
        lemma_encode_concat(a, b);
        lemma_encode_boundary(a.drop_first(), b);
        encode_utf8_first_scalar(a + b);
        assert((a + b).drop_first() =~= a.drop_first() + b);
        assert(pop_first_scalar(encode_utf8(a + b)) =~= encode_utf8(a.drop_first() + b));
        assert((a + b)[0] == a[0]);
    }
}

/// How many bytes a character takes in UTF-8.
fn utf8_len(c: char) -> (n: usize)
    ensures
        n == encode_scalar(c as u32).len(),
        1 <= n <= 4,
{
    let v = c as u32;
    if v < 0x80 {
        1
    } else if v < 0x800 {
        2
    } else if v < 0x10000 {
        3
    } else {
        4
    }
}

/// The first `k` characters of `s` and those after them, `None` where there is none after them.
pub(crate) fn split_chars<'a>(s: &'a str, k: usize) -> (r: Option<(&'a str, &'a str)>)
    ensures
        r is Some <==> s@.len() > k,
        r matches Some((head, tail)) ==> head@ == s@.take(k as int) && tail@ == s@.skip(k as int),
{
    let total: usize = s.as_bytes().len();
    let mut bytes: usize = 0;
    let mut count: usize = 0;
    proof {
        assert(s@.take(0) =~= Seq::<char>::empty());
    }
    for c in it: s.chars()
        invariant
            it.seq() == s@,
            count == it.index(),
            count <= k,
            bytes == encode_utf8(s@.take(count as int)).len(),
            total == encode_utf8(s@).len(),
    {
        let ghost head = s@.take(count as int);
        let ghost tail = s@.skip(count as int);
        proof {
            assert(head + tail =~= s@);
            lemma_encode_concat(head, tail);
            lemma_encode_boundary(head, tail);
        }
        if count == k {
            let pair = s.split_at(bytes);
            proof {
                encode_utf8_decode_utf8(head);
                encode_utf8_decode_utf8(tail);
                encode_utf8_decode_utf8(pair.0@);
                encode_utf8_decode_utf8(pair.1@);
                assert(encode_utf8(pair.0@) =~= encode_utf8(head));
                assert(encode_utf8(pair.1@) =~= encode_utf8(tail));
            }
            return Some(pair);
        }
        proof {
            let next = s@.take(count + 1);
            assert(next =~= head + seq![c]);
            lemma_encode_concat(head, seq![c]);
            assert(seq![c].drop_first() =~= Seq::<char>::empty());
            reveal_with_fuel(encode_utf8, 2);
            assert(next + s@.skip(count + 1) =~= s@);
            lemma_encode_concat(next, s@.skip(count + 1));
        }
        bytes = bytes + utf8_len(c);
        count = count + 1;
    }
    None
}

// ---- printing ----

/// The character of a decimal digit.
pub open spec fn digit(d: nat) -> char {
    (48 + d) as char
}

/// A number in decimal, without leading zeros.
pub open spec fn decimal(n: nat) -> Seq<char>
    decreases n,
{
    if n < 10 {
        seq![digit(n)]
    } else {
        decimal(n / 10).push(digit(n % 10))
    }
}

/// `n` in decimal.
pub(crate) fn print_decimal(n: u64) -> (r: String)
    ensures
        r@ == decimal(n as nat),
    decreases n,
{
    let mut out = if n < 10 {
        String::new()
    } else {
        print_decimal(n / 10)
    };
    let d: u8 = (n % 10) as u8;
    out.push((48 + d) as char);
    proof {
        if n < 10 {
            assert(out@ =~= decimal(n as nat));
        }
    }
    out
}

/// `n` spaces.
pub open spec fn spaces(n: nat) -> Seq<char> {
    Seq::new(n, |i: int| ' ')
}

/// `s` with spaces on its right up to `width` characters; a longer `s` as it is.
pub open spec fn padded(s: Seq<char>, width: nat) -> Seq<char> {
    if s.len() < width {
        s + spaces((width - s.len()) as nat)
    } else {
        s
    }
}

/// `s`, padded on its right to `width` characters.
pub(crate) fn pad_right(s: &str, width: usize) -> (r: String)
    ensures
        r@ == padded(s@, width as nat),
{
    let mut out = s.to_owned();
    let mut count: usize = s.unicode_len();
    proof {
        assert(out@ =~= s@ + spaces(0));
    }
    while count < width
        invariant
            s@.len() <= count,
            count <= width || count == s@.len(),
            out@ == s@ + spaces((count - s@.len()) as nat),
        decreases width - count,
    {
        out.push(' ');
        count = count + 1;
        assert(out@ =~= s@ + spaces((count - s@.len()) as nat));
    }
    assert(s@ + spaces(0) =~= s@);
    out
}

/// The items, one after the other, with `separator` between them.
pub open spec fn joined(items: Seq<Seq<char>>, separator: Seq<char>) -> Seq<char>
    decreases items.len(),
{
    if items.len() == 0 {
        seq![]
    } else if items.len() == 1 {
        items[0]
    } else {
        joined(items.drop_last(), separator) + separator + items.last()
    }
}

/// Joins the items as `slice::join` does.
pub(crate) fn join(items: &Vec<String>, separator: &str) -> (r: String)
    ensures
        r@ == joined(items.deep_view(), separator@),
{
    let mut out = String::new();
    let ghost all = items.deep_view();
    let mut i: usize = 0;
    assert(all.take(0) =~= Seq::<Seq<char>>::empty());
    assert(out@ =~= joined(all.take(0), separator@));
    while i < items.len()
        invariant
            i <= items.len(),
            all == items.deep_view(),
            out@ == joined(all.take(i as int), separator@),
        decreases items.len() - i,
    {
        let ghost next = all.take(i + 1);
        assert(next.drop_last() =~= all.take(i as int));
        assert(next.last() == items[i as int]@);
        if i > 0 {
            out.append(separator);
        }
        out.append(items[i].as_str());
        assert(out@ =~= joined(next, separator@));
        i = i + 1;
    }
    assert(all.take(i as int) =~= all);
    out
}

// ---- lists ----

pub(crate) fn push_text(out: &mut Vec<String>, text: &str)
    ensures
        final(out).deep_view() == old(out).deep_view().push(text@),
{
    out.push(text.to_owned());
    assert(out.deep_view() =~= old(out).deep_view().push(text@));
}

pub(crate) fn push_all(out: &mut Vec<String>, items: &Vec<String>)
    ensures
        final(out).deep_view() == old(out).deep_view() + items.deep_view(),
{
    let ghost before = out.deep_view();
    let ghost all = items.deep_view();
    let mut i: usize = 0;
    assert(out.deep_view() =~= before + all.take(0));
    while i < items.len()
        invariant
            i <= items.len(),
            all == items.deep_view(),
            out.deep_view() == before + all.take(i as int),
        decreases items.len() - i,
    {
        push_text(out, items[i].as_str());
        assert(all[i as int] == items[i as int]@);
        assert(out.deep_view() =~= before + all.take(i + 1));
        i = i + 1;
    }
    assert(all.take(i as int) =~= all);
}

// ---- what holds of texts ----

/// A line ends in a line feed, or in a carriage return and a line feed, and neither belongs to it.
/// What stands after the last line feed is a line too, unless it is empty, and is kept as it is.
pub proof fn law_lines_end_where_the_text_says(line: Seq<char>, rest: Seq<char>)
    requires
        !line.contains('\n'),
    ensures
        line.len() > 0 ==> lines_of(line) == seq![line],
        lines_of(seq![]).len() == 0,
        line.len() == 0 || line.last() != '\r' ==> lines_of(line.push('\n') + rest) == seq![line]
            + lines_of(rest),
        lines_of(line.push('\r').push('\n') + rest) == seq![line] + lines_of(rest),
{
    let n = line.len() as int;
    lemma_find_char(line, '\n');
    assert(forall|i: int| 0 <= i < line.len() ==> line[i] != '\n') by {
        assert forall|i: int| 0 <= i < line.len() implies line[i] != '\n' by {
            assert(line.contains(line[i]));
        }
    }
    let plain = line.push('\n') + rest;
    lemma_find_char(plain, '\n');
    assert(plain[line.len() as int] == '\n');
    assert(find_char(plain, '\n') == line.len()) by {
        assert forall|i: int| 0 <= i < line.len() implies plain[i] != '\n' by {
            assert(plain[i] == line[i]);
        }
    }
    assert(plain.take(line.len() as int) =~= line);
    assert(plain.skip(n + 1) =~= rest);
    let long = line.push('\r').push('\n') + rest;
    lemma_find_char(long, '\n');
    assert(long[n + 1] == '\n');
    assert(find_char(long, '\n') == line.len() + 1) by {
        assert forall|i: int| 0 <= i < line.len() + 1 implies long[i] != '\n' by {
            if i < line.len() {
                assert(long[i] == line[i]);
            }
        }
    }
    assert(long.take(n + 1) =~= line.push('\r'));
    assert(line.push('\r').drop_last() =~= line);
    assert(long.skip(n + 2) =~= rest);
}

/// The number that decimal digits stand for.
pub open spec fn value_of(digits: Seq<char>) -> int
    decreases digits.len(),
{
    if digits.len() == 0 {
        0
    } else {
        10 * value_of(digits.drop_last()) + (digits.last() as int - '0' as int)
    }
}

/// A printed number is made of decimal digits, does not begin with a zero unless it is zero, and
/// stands for the number that was printed.
pub proof fn law_printed_number_reads_back(n: nat)
    ensures
        value_of(decimal(n)) == n,
        decimal(n).len() > 0,
        forall|i: int| 0 <= i < decimal(n).len() ==> '0' <= #[trigger] decimal(n)[i] <= '9',
        n > 0 ==> decimal(n)[0] != '0',
        n == 0 ==> decimal(n) == seq!['0'],
    decreases n,
{
    reveal_with_fuel(value_of, 2);
    if n < 10 {
        assert(decimal(n).drop_last() =~= Seq::<char>::empty());
    } else {
        law_printed_number_reads_back(n / 10);
        assert(decimal(n).drop_last() =~= decimal(n / 10));
        assert(decimal(n)[0] == decimal(n / 10)[0]);
    }
}

/// Padding keeps the text in front and adds spaces behind it up to the width; a text that is as wide
/// already is left alone.
pub proof fn law_padding_fills_up_with_spaces(s: Seq<char>, width: nat)
    ensures
        s.is_prefix_of(padded(s, width)),
        padded(s, width).len() == if s.len() < width {
            width
        } else {
            s.len()
        },
        forall|i: int| s.len() <= i < padded(s, width).len() ==> #[trigger] padded(s, width)[i] == ' ',
{
    assert(padded(s, width).subrange(0, s.len() as int) =~= s);
}

/// Joining one item gives that item, and joining one more puts the separator and that item behind.
pub proof fn law_joining_separates_the_items(
    items: Seq<Seq<char>>,
    item: Seq<char>,
    separator: Seq<char>,
)
    ensures
        joined(seq![item], separator) == item,
        items.len() > 0 ==> joined(items.push(item), separator) == joined(items, separator)
            + separator + item,
        joined(seq![], separator).len() == 0,
{
    assert(items.push(item).drop_last() =~= items);
}

} // verus!
