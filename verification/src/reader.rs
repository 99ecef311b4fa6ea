//! Reading a table back: the inverse of the table exporter.
//!
//! A table that was written by `encode_table` reads back with the same number
//! of rows, the same columns in the same order, the same text in every cell
//! and the same labels. Text that no table could have produced is refused.
use crate::error::PipelineError;
use crate::table::{
    cells_fit, decimal, digit, header, is_field, is_field_char, is_field_text, line, lines, table,
    texts,
};
use vstd::prelude::*;
use vstd::string::*;
use vstd::utf8::is_ascii_chars;

verus! {

/// The position of the first `c` in `s`, or the length of `s` where there is
/// none.
pub open spec fn find(s: Seq<char>, c: char) -> nat
    decreases s.len(),
{
    if s.len() == 0 || s[0] == c {
        0
    } else {
        1 + find(s.skip(1), c)
    }
}

/// Whether `c` is a decimal digit.
pub open spec fn is_digit(c: char) -> bool {
    '0' <= c <= '9'
}

/// The number that a decimal digit denotes; zero for any other character.
pub open spec fn digit_value(c: char) -> nat {
    if is_digit(c) {
        (c as u32 - '0' as u32) as nat
    } else {
        0
    }
}

/// The number that a run of decimal digits denotes.
pub open spec fn value(s: Seq<char>) -> nat
    decreases s.len(),
{
    if s.len() == 0 {
        0
    } else {
        10 * value(s.drop_last()) + digit_value(s.last())
    }
}

/// A label is written as a non-empty run of digits without a leading zero
/// (but for zero itself) whose number fits in 32 bits.
#[verifier::opaque]
pub open spec fn parse_decimal(s: Seq<char>) -> Option<u32> {
    if s.len() > 0 && (forall|i: int| 0 <= i < s.len() ==> is_digit(#[trigger] s[i])) && (s.len()
        == 1 || s[0] != '0') && value(s) <= u32::MAX {
        Some(value(s) as u32)
    } else {
        None
    }
}

/// Whether `c` occurs in `s`.
pub open spec fn occurs(s: Seq<char>, c: char) -> bool {
    find(s, c) < s.len()
}

/// What stands in `s` before the first `c`.
pub open spec fn before(s: Seq<char>, c: char) -> Seq<char> {
    s.take(find(s, c) as int)
}

/// What stands in `s` after the first `c`.
pub open spec fn after(s: Seq<char>, c: char) -> Seq<char> {
    s.skip(find(s, c) as int + 1)
}

/// A line without its line feed reads as four fields and a label, each
/// field followed by a comma.
#[verifier::opaque]
pub open spec fn parse_line(l: Seq<char>) -> Option<(Seq<Seq<char>>, u32)> {
    let l1 = after(l, ',');
    let l2 = after(l1, ',');
    let l3 = after(l2, ',');
    let l4 = after(l3, ',');
    let cells = seq![before(l, ','), before(l1, ','), before(l2, ','), before(l3, ',')];
    if occurs(l, ',') && occurs(l1, ',') && occurs(l2, ',') && occurs(l3, ',') && is_field(cells[0])
        && is_field(cells[1]) && is_field(cells[2]) && is_field(cells[3]) && parse_decimal(l4)
        is Some {
        Some((cells, parse_decimal(l4).unwrap()))
    } else {
        None
    }
}

/// The lines of a table read as the cells of all rows, four per row, and the
/// labels of all rows. Every line ends in a line feed.
pub open spec fn parse_lines(s: Seq<char>) -> Option<(Seq<Seq<char>>, Seq<u32>)>
    decreases s.len(),
{
    if s.len() == 0 {
        Some((Seq::empty(), Seq::empty()))
    } else if !occurs(s, '\n') {
        None
    } else {
        match (parse_line(before(s, '\n')), parse_lines(after(s, '\n'))) {
            (Some((cells, label)), Some((more_cells, more_labels))) => Some(
                (cells + more_cells, seq![label] + more_labels),
            ),
            _ => None,
        }
    }
}

/// A table is plain ASCII text that starts with the header line and goes on
/// with the lines of its rows.
pub open spec fn parse_table(text: Seq<char>) -> Option<(Seq<Seq<char>>, Seq<u32>)> {
    let start = header().len() + 1;
    if is_ascii_chars(text) && text.len() >= start && text.take(start as int) == header().push(
        '\n',
    ) {
        parse_lines(text.skip(start as int))
    } else {
        None
    }
}

/// `find` returns the first position of `c`: nothing before it is `c`, and
/// it is within `s` exactly when `c` occurs.
pub proof fn lemma_find(s: Seq<char>, c: char)
    ensures
        find(s, c) <= s.len(),
        forall|j: int| 0 <= j < find(s, c) ==> s[j] != c,
        find(s, c) < s.len() ==> s[find(s, c) as int] == c,
    decreases s.len(),
{
    if s.len() == 0 || s[0] == c {
    } else {
        lemma_find(s.skip(1), c);
        assert forall|j: int| 0 <= j < find(s, c) implies s[j] != c by {
            if j > 0 {
                assert(s.skip(1)[j - 1] == s[j]);
            }
        }
    }
}

/// A position with `c`, or the end, before which no `c` stands is what
/// `find` returns.
pub proof fn lemma_find_is(s: Seq<char>, c: char, i: int)
    requires
        0 <= i <= s.len(),
        forall|j: int| 0 <= j < i ==> s[j] != c,
        i < s.len() ==> s[i] == c,
    ensures
        find(s, c) == i,
{
    lemma_find(s, c);
    let f = find(s, c) as int;
    if f < i {
        assert(s[f] != c);
    } else if i < f {
        assert(s[i] != c);
    }
}

/// What is written before a separator that it does not contain is found
/// again by splitting at the first separator.
pub proof fn lemma_split(front: Seq<char>, c: char, back: Seq<char>)
    requires
        forall|j: int| 0 <= j < front.len() ==> front[j] != c,
    ensures
        occurs(front.push(c) + back, c),
        before(front.push(c) + back, c) == front,
        after(front.push(c) + back, c) == back,
{
    let s = front.push(c) + back;
    assert forall|j: int| 0 <= j < front.len() implies s[j] != c by {
        assert(s[j] == front[j]);
    }
    assert(s[front.len() as int] == c);
    lemma_find_is(s, c, front.len() as int);
    assert(s.take(front.len() as int) =~= front);
    assert(s.skip(front.len() as int + 1) =~= back);
}

/// The decimal form of a number is a canonical run of digits that denotes
/// the number.
pub proof fn lemma_decimal(n: nat)
    ensures
        decimal(n).len() > 0,
        forall|i: int| 0 <= i < decimal(n).len() ==> is_digit(#[trigger] decimal(n)[i]),
        decimal(n).len() == 1 || decimal(n)[0] != '0',
        value(decimal(n)) == n,
    decreases n,
{
    if n < 10 {
        let s = decimal(n);
        assert(s.drop_last() =~= Seq::<char>::empty());
        assert(value(s.drop_last()) == 0);
        assert(s.last() == digit(n));
        assert(digit_value(digit(n)) == n);
    } else {
        lemma_decimal(n / 10);
        let front = decimal(n / 10);
        let s = decimal(n);
        assert(s.drop_last() =~= front);
        assert(s.last() == digit(n % 10));
        assert(digit_value(digit(n % 10)) == n % 10);
        assert(s[0] == front[0]);
        if front.len() == 1 {
            assert(value(front) == n / 10);
            assert(front.drop_last() =~= Seq::<char>::empty());
            assert(value(front.drop_last()) == 0);
            assert(front[0] != '0');
        }
    }
}

/// A written label reads back as itself.
pub proof fn lemma_parse_decimal(n: u32)
    ensures
        parse_decimal(decimal(n as nat)) == Some(n),
{
    reveal(parse_decimal);
    lemma_decimal(n as nat);
}

/// A line without its line feed: what `line` writes before it.
pub open spec fn line_body(
    true_x: Seq<char>,
    true_y: Seq<char>,
    noisy_x: Seq<char>,
    noisy_y: Seq<char>,
    label: u32,
) -> Seq<char> {
    true_x.push(',') + (true_y.push(',') + (noisy_x.push(',') + (noisy_y.push(',') + decimal(
        label as nat,
    ))))
}

/// A field holds neither a comma nor a line feed, and is plain ASCII.
pub proof fn lemma_field_chars(cell: Seq<char>)
    requires
        is_field(cell),
    ensures
        forall|j: int| 0 <= j < cell.len() ==> cell[j] != ',',
        forall|j: int| 0 <= j < cell.len() ==> cell[j] != '\n',
        is_ascii_chars(cell),
{
    assert forall|j: int| 0 <= j < cell.len() implies cell[j] != ',' && cell[j] != '\n' && '\0'
        <= cell[j] <= '\u{7f}' by {
        assert(is_field_char(cell[j]));
    }
}

/// Text that is put together from two pieces without a character, with that
/// character nowhere, holds it nowhere. The same goes for plain ASCII.
proof fn lemma_joined_chars(front: Seq<char>, back: Seq<char>, c: char)
    requires
        forall|j: int| 0 <= j < front.len() ==> front[j] != c,
        forall|j: int| 0 <= j < back.len() ==> back[j] != c,
        is_ascii_chars(front),
        is_ascii_chars(back),
    ensures
        forall|j: int| 0 <= j < (front + back).len() ==> (front + back)[j] != c,
        is_ascii_chars(front + back),
{
    let s = front + back;
    assert forall|j: int| 0 <= j < s.len() implies s[j] != c && '\0' <= s[j] <= '\u{7f}' by {
        if j < front.len() {
            assert(s[j] == front[j]);
        } else {
            assert(s[j] == back[j - front.len()]);
        }
    }
}

/// A field with its comma holds no line feed and is plain ASCII.
proof fn lemma_cell_chars(cell: Seq<char>)
    requires
        is_field(cell),
    ensures
        forall|j: int| 0 <= j < cell.push(',').len() ==> cell.push(',')[j] != '\n',
        is_ascii_chars(cell.push(',')),
{
    lemma_field_chars(cell);
    let s = cell.push(',');
    assert forall|j: int| 0 <= j < s.len() implies s[j] != '\n' && '\0' <= s[j] <= '\u{7f}' by {
        if j < cell.len() {
            assert(s[j] == cell[j]);
        }
    }
}

/// A written line holds no line feed before its end and is plain ASCII.
pub proof fn lemma_line_chars(
    true_x: Seq<char>,
    true_y: Seq<char>,
    noisy_x: Seq<char>,
    noisy_y: Seq<char>,
    label: u32,
)
    requires
        is_field(true_x),
        is_field(true_y),
        is_field(noisy_x),
        is_field(noisy_y),
    ensures
        ({
            let body = line_body(true_x, true_y, noisy_x, noisy_y, label);
            &&& line(true_x, true_y, noisy_x, noisy_y, label) == body.push('\n')
            &&& forall|j: int| 0 <= j < body.len() ==> body[j] != '\n'
            &&& is_ascii_chars(body)
        }),
{
    let digits = decimal(label as nat);
    let l3 = noisy_y.push(',') + digits;
    let l2 = noisy_x.push(',') + l3;
    let l1 = true_y.push(',') + l2;
    let body = true_x.push(',') + l1;
    lemma_decimal(label as nat);
    assert forall|j: int| 0 <= j < digits.len() implies digits[j] != '\n' && '\0' <= digits[j]
        <= '\u{7f}' by {
        assert(is_digit(digits[j]));
    }
    lemma_cell_chars(true_x);
    lemma_cell_chars(true_y);
    lemma_cell_chars(noisy_x);
    lemma_cell_chars(noisy_y);
    lemma_joined_chars(noisy_y.push(','), digits, '\n');
    lemma_joined_chars(noisy_x.push(','), l3, '\n');
    lemma_joined_chars(true_y.push(','), l2, '\n');
    lemma_joined_chars(true_x.push(','), l1, '\n');
    assert(line(true_x, true_y, noisy_x, noisy_y, label) =~= body.push('\n'));
}

/// A written line reads back as its four fields and its label.
pub proof fn lemma_parse_line(
    true_x: Seq<char>,
    true_y: Seq<char>,
    noisy_x: Seq<char>,
    noisy_y: Seq<char>,
    label: u32,
)
    requires
        is_field(true_x),
        is_field(true_y),
        is_field(noisy_x),
        is_field(noisy_y),
    ensures
        parse_line(line_body(true_x, true_y, noisy_x, noisy_y, label)) == Some(
            (seq![true_x, true_y, noisy_x, noisy_y], label),
        ),
{
    reveal(parse_line);
    let digits = decimal(label as nat);
    let l3 = noisy_y.push(',') + digits;
    let l2 = noisy_x.push(',') + l3;
    let l1 = true_y.push(',') + l2;
    let body = true_x.push(',') + l1;
    lemma_parse_decimal(label);
    lemma_field_chars(true_x);
    lemma_field_chars(true_y);
    lemma_field_chars(noisy_x);
    lemma_field_chars(noisy_y);
    lemma_split(true_x, ',', l1);
    lemma_split(true_y, ',', l2);
    lemma_split(noisy_x, ',', l3);
    lemma_split(noisy_y, ',', digits);
    let cells = seq![before(body, ','), before(l1, ','), before(l2, ','), before(l3, ',')];
    assert(cells =~= seq![true_x, true_y, noisy_x, noisy_y]);
}

/// The lines of a table are its first line followed by the lines of the
/// table without its first row.
pub proof fn lemma_lines_front(labels: Seq<u32>, cells: Seq<Seq<char>>, n: nat)
    requires
        0 < n <= labels.len(),
        cells.len() == 4 * labels.len(),
    ensures
        lines(labels, cells, n) == line(cells[0], cells[1], cells[2], cells[3], labels[0]) + lines(
            labels.skip(1),
            cells.skip(4),
            (n - 1) as nat,
        ),
    decreases n,
{
    let first = line(cells[0], cells[1], cells[2], cells[3], labels[0]);
    let rest_labels = labels.skip(1);
    let rest_cells = cells.skip(4);
    if n == 1 {
        assert(lines(labels, cells, 0) =~= Seq::<char>::empty());
        assert(lines(rest_labels, rest_cells, 0) =~= Seq::<char>::empty());
        assert(lines(labels, cells, 1) =~= first);
        assert(first + Seq::<char>::empty() =~= first);
    } else {
        lemma_lines_front(labels, cells, (n - 1) as nat);
        let i = n - 1;
        let last = line(cells[4 * i], cells[4 * i + 1], cells[4 * i + 2], cells[4 * i + 3], labels[i]);
        assert(rest_labels[i - 1] == labels[i]);
        assert(rest_cells[4 * (i - 1)] == cells[4 * i]);
        assert(rest_cells[4 * (i - 1) + 1] == cells[4 * i + 1]);
        assert(rest_cells[4 * (i - 1) + 2] == cells[4 * i + 2]);
        assert(rest_cells[4 * (i - 1) + 3] == cells[4 * i + 3]);
        assert(lines(rest_labels, rest_cells, i as nat) == lines(
            rest_labels,
            rest_cells,
            (i - 1) as nat,
        ) + last);
        assert(lines(labels, cells, n) =~= first + lines(rest_labels, rest_cells, i as nat));
    }
}

/// The table without its first row has four fields per row as well.
proof fn lemma_rest_fits(labels: Seq<u32>, cells: Seq<Seq<char>>)
    requires
        labels.len() > 0,
        cells_fit(labels.len(), cells),
    ensures
        cells_fit(labels.skip(1).len(), cells.skip(4)),
        is_field(cells[0]),
        is_field(cells[1]),
        is_field(cells[2]),
        is_field(cells[3]),
        seq![cells[0], cells[1], cells[2], cells[3]] + cells.skip(4) == cells,
        seq![labels[0]] + labels.skip(1) == labels,
{
    let rest_cells = cells.skip(4);
    assert forall|i: int| 0 <= i < rest_cells.len() implies is_field(#[trigger] rest_cells[i]) by {
        assert(rest_cells[i] == cells[i + 4]);
    }
    assert(seq![cells[0], cells[1], cells[2], cells[3]] + rest_cells =~= cells);
    assert(seq![labels[0]] + labels.skip(1) =~= labels);
}

/// Written lines are plain ASCII.
pub proof fn lemma_lines_are_ascii(labels: Seq<u32>, cells: Seq<Seq<char>>, n: nat)
    requires
        cells_fit(labels.len(), cells),
        n <= labels.len(),
    ensures
        is_ascii_chars(lines(labels, cells, n)),
    decreases n,
{
    if n > 0 {
        let i = n - 1;
        let front = lines(labels, cells, i as nat);
        lemma_lines_are_ascii(labels, cells, i as nat);
        lemma_line_chars(cells[4 * i], cells[4 * i + 1], cells[4 * i + 2], cells[4 * i + 3], labels[i]);
        let body = line_body(
            cells[4 * i],
            cells[4 * i + 1],
            cells[4 * i + 2],
            cells[4 * i + 3],
            labels[i],
        );
        let text = lines(labels, cells, n);
        assert(text == front + body.push('\n'));
        assert forall|j: int| 0 <= j < text.len() implies '\0' <= #[trigger] text[j]
            <= '\u{7f}' by {
            if j < front.len() {
                assert(text[j] == front[j]);
            } else if j < front.len() + body.len() {
                assert(text[j] == body[j - front.len()]);
            }
        }
    }
}

/// Written lines read back as the cells and labels that they were written
/// from.
pub proof fn lemma_parse_lines(labels: Seq<u32>, cells: Seq<Seq<char>>)
    requires
        cells_fit(labels.len(), cells),
    ensures
        parse_lines(lines(labels, cells, labels.len())) == Some((cells, labels)),
    decreases labels.len(),
{
    let n = labels.len();
    let text = lines(labels, cells, n);
    if n == 0 {
        assert(cells =~= Seq::<Seq<char>>::empty());
        assert(labels =~= Seq::<u32>::empty());
    } else {
        let rest_labels = labels.skip(1);
        let rest_cells = cells.skip(4);
        let first = seq![cells[0], cells[1], cells[2], cells[3]];
        let body = line_body(cells[0], cells[1], cells[2], cells[3], labels[0]);
        let rest = lines(rest_labels, rest_cells, (n - 1) as nat);
        lemma_rest_fits(labels, cells);
        lemma_lines_front(labels, cells, n);
        lemma_parse_line(cells[0], cells[1], cells[2], cells[3], labels[0]);
        lemma_line_chars(cells[0], cells[1], cells[2], cells[3], labels[0]);
        lemma_parse_lines(rest_labels, rest_cells);
        lemma_split(body, '\n', rest);
        assert(text == body.push('\n') + rest);
        assert(text.len() > 0);
        assert(parse_line(before(text, '\n')) == Some((first, labels[0])));
        assert(parse_lines(after(text, '\n')) == Some((rest_cells, rest_labels)));
        assert(parse_lines(text) == Some((first + rest_cells, seq![labels[0]] + rest_labels)));
    }
}

/// The header line is plain ASCII.
proof fn lemma_header_is_ascii()
    ensures
        is_ascii_chars(header()),
        header().len() == 27,
{
    reveal_strlit("x,y,x_noisy,y_noisy,cluster");
    let h = header();
    assert(h.len() == 27);
    assert forall|i: int| 0 <= i < h.len() implies '\0' <= #[trigger] h[i] <= '\u{7f}' by {
        assert(h[0] == 'x' && h[1] == ',' && h[2] == 'y' && h[3] == ',' && h[4] == 'x' && h[5]
            == '_' && h[6] == 'n' && h[7] == 'o' && h[8] == 'i' && h[9] == 's' && h[10] == 'y'
            && h[11] == ',' && h[12] == 'y' && h[13] == '_' && h[14] == 'n' && h[15] == 'o'
            && h[16] == 'i' && h[17] == 's' && h[18] == 'y' && h[19] == ',' && h[20] == 'c'
            && h[21] == 'l' && h[22] == 'u' && h[23] == 's' && h[24] == 't' && h[25] == 'e'
            && h[26] == 'r');
    }
}

/// Reading a written table back yields what was written: as many rows, the
/// columns in the same order, the same text in every cell and the same
/// label in every row.
pub proof fn lemma_round_trip(labels: Seq<u32>, cells: Seq<Seq<char>>)
    requires
        cells_fit(labels.len(), cells),
    ensures
        parse_table(table(labels, cells)) == Some((cells, labels)),
{
    let head = header().push('\n');
    let body = lines(labels, cells, labels.len());
    let text = table(labels, cells);
    lemma_header_is_ascii();
    lemma_parse_lines(labels, cells);
    lemma_lines_are_ascii(labels, cells, labels.len());
    assert(text.take(head.len() as int) =~= head);
    assert(text.skip(head.len() as int) =~= body);
    assert forall|j: int| 0 <= j < text.len() implies '\0' <= #[trigger] text[j] <= '\u{7f}' by {
        if j < header().len() {
            assert(text[j] == header()[j]);
        } else if j >= head.len() {
            assert(text[j] == body[j - head.len()]);
        }
    }
}

/// Text with a separator is what stands before it, the separator, and
/// what stands after it.
pub proof fn lemma_join(s: Seq<char>, c: char)
    requires
        occurs(s, c),
    ensures
        s == before(s, c).push(c) + after(s, c),
{
    lemma_find(s, c);
    assert(s =~= before(s, c).push(c) + after(s, c));
}

/// A run of digits that reads as a label is the decimal form of that label.
pub proof fn lemma_decimal_is_unique(s: Seq<char>)
    requires
        s.len() > 0,
        forall|i: int| 0 <= i < s.len() ==> is_digit(#[trigger] s[i]),
        s.len() == 1 || s[0] != '0',
    ensures
        decimal(value(s)) == s,
        s.len() > 1 ==> value(s) >= 10,
        s[0] != '0' ==> value(s) >= 1,
    decreases s.len(),
{
    let front = s.drop_last();
    let c = s.last();
    assert(is_digit(c));
    assert(digit(digit_value(c)) == c);
    if s.len() == 1 {
        assert(front =~= Seq::<char>::empty());
        assert(value(front) == 0);
        assert(decimal(value(s)) =~= s);
    } else {
        assert(front[0] == s[0]);
        assert forall|i: int| 0 <= i < front.len() implies is_digit(#[trigger] front[i]) by {
            assert(front[i] == s[i]);
        }
        lemma_decimal_is_unique(front);
        let n = value(s);
        assert(n == 10 * value(front) + digit_value(c));
        assert(value(front) >= 1);
        assert(n / 10 == value(front) && n % 10 == digit_value(c));
        assert(decimal(n) =~= front.push(c));
        assert(front.push(c) =~= s);
    }
}

/// A run of characters that reads as a label is the decimal form of that
/// label.
pub proof fn lemma_label_is_unique(s: Seq<char>)
    requires
        parse_decimal(s) is Some,
    ensures
        decimal(parse_decimal(s).unwrap() as nat) == s,
{
    reveal(parse_decimal);
    lemma_decimal_is_unique(s);
}

/// A line that reads as four cells and a label is what `line` writes for
/// them, without the line feed, and the cells are fields.
pub proof fn lemma_line_is_unique(l: Seq<char>)
    requires
        parse_line(l) is Some,
    ensures
        ({
            let (cells, label) = parse_line(l).unwrap();
            &&& cells.len() == 4
            &&& is_field(cells[0]) && is_field(cells[1]) && is_field(cells[2]) && is_field(cells[3])
            &&& l == line_body(cells[0], cells[1], cells[2], cells[3], label)
        }),
{
    reveal(parse_line);
    let l1 = after(l, ',');
    let l2 = after(l1, ',');
    let l3 = after(l2, ',');
    let l4 = after(l3, ',');
    lemma_join(l, ',');
    lemma_join(l1, ',');
    lemma_join(l2, ',');
    lemma_join(l3, ',');
    lemma_label_is_unique(l4);
}

/// Putting a row in front of a table puts its line in front of the lines.
proof fn lemma_lines_cons(
    first: Seq<Seq<char>>,
    label: u32,
    more_cells: Seq<Seq<char>>,
    more_labels: Seq<u32>,
)
    requires
        first.len() == 4,
        is_field(first[0]) && is_field(first[1]) && is_field(first[2]) && is_field(first[3]),
        cells_fit(more_labels.len(), more_cells),
    ensures
        cells_fit((seq![label] + more_labels).len(), first + more_cells),
        lines(seq![label] + more_labels, first + more_cells, more_labels.len() + 1) == line(
            first[0],
            first[1],
            first[2],
            first[3],
            label,
        ) + lines(more_labels, more_cells, more_labels.len()),
{
    let cells = first + more_cells;
    let labels = seq![label] + more_labels;
    assert forall|i: int| 0 <= i < cells.len() implies is_field(#[trigger] cells[i]) by {
        if i >= 4 {
            assert(cells[i] == more_cells[i - 4]);
        }
    }
    assert(cells.skip(4) =~= more_cells);
    assert(labels.skip(1) =~= more_labels);
    lemma_lines_front(labels, cells, labels.len());
}

/// Lines that read as cells and labels are what `lines` writes for them,
/// with four fields per row.
pub proof fn lemma_lines_are_unique(s: Seq<char>)
    requires
        parse_lines(s) is Some,
    ensures
        ({
            let (cells, labels) = parse_lines(s).unwrap();
            &&& cells_fit(labels.len(), cells)
            &&& s == lines(labels, cells, labels.len())
        }),
    decreases s.len(),
{
    if s.len() == 0 {
        let (cells, labels) = parse_lines(s).unwrap();
        assert(lines(labels, cells, 0) =~= s);
    } else {
        let l = before(s, '\n');
        let rest = after(s, '\n');
        assert(occurs(s, '\n') && parse_line(l) is Some && parse_lines(rest) is Some);
        let (first, label) = parse_line(l).unwrap();
        let (more_cells, more_labels) = parse_lines(rest).unwrap();
        assert(parse_lines(s) == Some((first + more_cells, seq![label] + more_labels)));
        lemma_find(s, '\n');
        assert(rest.len() < s.len());
        lemma_lines_are_unique(rest);
        assert(s == l.push('\n') + lines(more_labels, more_cells, more_labels.len())) by {
            lemma_join(s, '\n');
        }
        assert(first.len() == 4 && is_field(first[0]) && is_field(first[1]) && is_field(first[2])
            && is_field(first[3]) && line(first[0], first[1], first[2], first[3], label)
            == l.push('\n')) by {
            lemma_line_is_unique(l);
            lemma_line_chars(first[0], first[1], first[2], first[3], label);
        }
        lemma_lines_cons(first, label, more_cells, more_labels);
    }
}

/// The reader accepts exactly what the exporter writes: text reads as cells
/// and labels only if it is the table of those cells and labels.
pub proof fn lemma_table_is_unique(text: Seq<char>)
    requires
        parse_table(text) is Some,
    ensures
        ({
            let (cells, labels) = parse_table(text).unwrap();
            &&& cells_fit(labels.len(), cells)
            &&& text == table(labels, cells)
        }),
{
    let start = header().len() + 1;
    lemma_lines_are_unique(text.skip(start as int));
    assert(text =~= text.take(start as int) + text.skip(start as int));
}

/// What a table holds when read as text: the cells of all rows, four per
/// row and row by row, and the label of each row.
#[derive(Debug, PartialEq, Eq)]
pub struct TableContent {
    pub cells: Vec<String>,
    pub labels: Vec<u32>,
}

/// The cells and labels read so far, followed by what the rest reads as.
pub open spec fn prepend(
    cells: Seq<Seq<char>>,
    labels: Seq<u32>,
    rest: Option<(Seq<Seq<char>>, Seq<u32>)>,
) -> Option<(Seq<Seq<char>>, Seq<u32>)> {
    match rest {
        Some((more_cells, more_labels)) => Some((cells + more_cells, labels + more_labels)),
        None => None,
    }
}

/// A number is at least the number that any of its leading digits denote.
proof fn lemma_value_grows(s: Seq<char>, k: int)
    requires
        0 <= k <= s.len(),
    ensures
        value(s.take(k)) <= value(s),
    decreases s.len() - k,
{
    if k < s.len() {
        lemma_value_grows(s, k + 1);
        assert(s.take(k + 1).drop_last() =~= s.take(k));
    } else {
        assert(s.take(k) =~= s);
    }
}

/// The position of the first `byte` in `text` from `from` up to `to`, or
/// `to` where there is none.
fn scan(text: &str, from: usize, to: usize, byte: u8) -> (at: usize)
    requires
        text.is_ascii(),
        from <= to <= text@.len(),
        byte < 0x80,
    ensures
        from <= at <= to,
        at - from == find(text@.subrange(from as int, to as int), byte as char),
{
    let mut at = from;
    while at < to && text.get_ascii(at) != byte
        invariant
            text.is_ascii(),
            from <= at <= to <= text@.len(),
            byte < 0x80,
            forall|j: int| from <= j < at ==> text@[j] != byte as char,
        decreases to - at,
    {
        at += 1;
    }
    proof {
        let part = text@.subrange(from as int, to as int);
        assert forall|j: int| 0 <= j < at - from implies part[j] != byte as char by {
            assert(part[j] == text@[from + j]);
        }
        if at < to {
            assert(part[at - from] == text@[at as int]);
        }
        lemma_find_is(part, byte as char, at - from);
    }
    at
}

/// Reads the label that stands in `text` from `from` up to `to`.
fn read_decimal(text: &str, from: usize, to: usize) -> (r: Option<u32>)
    requires
        text.is_ascii(),
        from <= to <= text@.len(),
    ensures
        r == parse_decimal(text@.subrange(from as int, to as int)),
{
    reveal(parse_decimal);
    let ghost s = text@.subrange(from as int, to as int);
    if from == to {
        return None;
    }
    if to - from > 1 && text.get_ascii(from) == 0x30 {
        assert(s[0] == text@[from as int]);
        return None;
    }
    let mut acc: u64 = 0;
    let mut i = from;
    while i < to
        invariant
            text.is_ascii(),
            from <= i <= to <= text@.len(),
            s == text@.subrange(from as int, to as int),
            acc == value(s.take(i - from)),
            acc <= u32::MAX,
            forall|j: int| 0 <= j < i - from ==> is_digit(#[trigger] s[j]),
        decreases to - i,
    {
        proof {
            reveal(parse_decimal);
        }
        let b = text.get_ascii(i);
        assert(s[i - from] == text@[i as int]);
        if b < 0x30 || b > 0x39 {
            assert(!is_digit(s[i - from]));
            return None;
        }
        assert(is_digit(s[i - from]));
        acc = acc * 10 + (b - 0x30) as u64;
        proof {
            assert(s.take(i - from + 1).drop_last() =~= s.take(i - from));
            assert(s.take(i - from + 1).last() == s[i - from]);
            assert(acc == value(s.take(i - from + 1)));
        }
        if acc > u32::MAX as u64 {
            proof {
                lemma_value_grows(s, i - from + 1);
            }
            return None;
        }
        i += 1;
    }
    assert(s.take(i - from) =~= s);
    Some(acc as u32)
}

/// Reads the line that stands in `text` from `from` up to `to`, without its
/// line feed, and appends its four cells to `cells`.
fn read_line(text: &str, from: usize, to: usize, cells: &mut Vec<String>) -> (r: Option<u32>)
    requires
        text.is_ascii(),
        from <= to <= text@.len(),
    ensures
        r is Some <==> parse_line(text@.subrange(from as int, to as int)) is Some,
        r matches Some(label) ==> {
            &&& final(cells)@.len() == old(cells)@.len() + 4
            &&& texts(final(cells)@).take(old(cells)@.len() as int) == texts(old(cells)@)
            &&& parse_line(text@.subrange(from as int, to as int)) == Some(
                (texts(final(cells)@).skip(old(cells)@.len() as int), label),
            )
        },
{
    reveal(parse_line);
    let ghost l = text@.subrange(from as int, to as int);
    let ghost l1 = after(l, ',');
    let ghost l2 = after(l1, ',');
    let ghost l3 = after(l2, ',');
    let ghost l4 = after(l3, ',');
    let ghost before_cells = texts(cells@);

    let a = scan(text, from, to, 0x2C);
    if a == to {
        return None;
    }
    let first = text.substring_ascii(from, a);
    assert(first@ =~= before(l, ','));
    assert(l1 =~= text@.subrange(a + 1, to as int));
    if !is_field_text(first) {
        return None;
    }
    let b = scan(text, a + 1, to, 0x2C);
    if b == to {
        return None;
    }
    let second = text.substring_ascii(a + 1, b);
    assert(second@ =~= before(l1, ','));
    assert(l2 =~= text@.subrange(b + 1, to as int));
    if !is_field_text(second) {
        return None;
    }
    let c = scan(text, b + 1, to, 0x2C);
    if c == to {
        return None;
    }
    let third = text.substring_ascii(b + 1, c);
    assert(third@ =~= before(l2, ','));
    assert(l3 =~= text@.subrange(c + 1, to as int));
    if !is_field_text(third) {
        return None;
    }
    let d = scan(text, c + 1, to, 0x2C);
    if d == to {
        return None;
    }
    let fourth = text.substring_ascii(c + 1, d);
    assert(fourth@ =~= before(l3, ','));
    assert(l4 =~= text@.subrange(d + 1, to as int));
    if !is_field_text(fourth) {
        return None;
    }
    match read_decimal(text, d + 1, to) {
        None => None,
        Some(label) => {
            cells.push(String::from_str(first));
            cells.push(String::from_str(second));
            cells.push(String::from_str(third));
            cells.push(String::from_str(fourth));
            proof {
                let n = before_cells.len() as int;
                assert(texts(cells@).take(n) =~= before_cells);
                assert(texts(cells@).skip(n) =~= seq![
                    before(l, ','),
                    before(l1, ','),
                    before(l2, ','),
                    before(l3, ','),
                ]);
            }
            Some(label)
        },
    }
}

/// Reads a table back from its text. The text must be exactly what a table
/// looks like: plain ASCII, the header line, then lines of four fields and a
/// label, each line ended by a line feed. Anything else is a shape error.
pub fn decode_table(text: &str) -> (r: Result<TableContent, PipelineError>)
    ensures
        r is Ok <==> parse_table(text@) is Some,
        r matches Ok(content) ==> parse_table(text@) == Some(
            (texts(content.cells@), content.labels@),
        ),
        r matches Err(e) ==> e == PipelineError::TableConstruction,
{
    if !text.is_ascii() {
        return Err(PipelineError::TableConstruction);
    }
    let n = text.unicode_len();
    let head = "x,y,x_noisy,y_noisy,cluster";
    proof {
        lemma_header_is_ascii();
    }
    let start: usize = 28;
    if n < start {
        return Err(PipelineError::TableConstruction);
    }
    let mut i: usize = 0;
    while i < 27
        invariant
            i <= 27,
            start == 28 <= n == text@.len(),
            text.is_ascii(),
            head.is_ascii(),
            head@ == header(),
            head@.len() == 27,
            forall|j: int| 0 <= j < i ==> text@[j] == head@[j],
        decreases 27 - i,
    {
        if text.get_ascii(i) != head.get_ascii(i) {
            assert(text@.take(start as int)[i as int] != header().push('\n')[i as int]);
            return Err(PipelineError::TableConstruction);
        }
        i += 1;
    }
    if text.get_ascii(27) != 0x0A {
        assert(text@.take(start as int)[27] != header().push('\n')[27]);
        return Err(PipelineError::TableConstruction);
    }
    assert(text@.take(start as int) =~= header().push('\n'));
    let ghost body = text@.skip(start as int);
    let mut cells: Vec<String> = Vec::new();
    let mut labels: Vec<u32> = Vec::new();
    let mut pos = start;
    assert(prepend(texts(cells@), labels@, parse_lines(body)) == parse_lines(body)) by {
        match parse_lines(body) {
            Some((c, l)) => {
                assert(texts(cells@) + c =~= c);
                assert(labels@ + l =~= l);
            },
            None => {},
        }
    }
    while pos < n
        invariant
            start <= pos <= n == text@.len(),
            text.is_ascii(),
            body == text@.skip(start as int),
            parse_table(text@) == parse_lines(body),
            cells@.len() == 4 * labels@.len(),
            prepend(texts(cells@), labels@, parse_lines(text@.skip(pos as int))) == parse_lines(
                body,
            ),
        decreases n - pos,
    {
        let ghost rest = text@.skip(pos as int);
        let ghost old_cells = texts(cells@);
        let ghost old_labels = labels@;
        let end = scan(text, pos, n, 0x0A);
        assert(text@.subrange(pos as int, n as int) =~= rest);
        if end == n {
            return Err(PipelineError::TableConstruction);
        }
        assert(before(rest, '\n') =~= text@.subrange(pos as int, end as int));
        assert(after(rest, '\n') =~= text@.skip(end + 1));
        match read_line(text, pos, end, &mut cells) {
            None => {
                return Err(PipelineError::TableConstruction);
            },
            Some(label) => {
                labels.push(label);
                proof {
                    let row = texts(cells@).skip(old_cells.len() as int);
                    let tail = parse_lines(text@.skip(end + 1));
                    assert(texts(cells@).take(old_cells.len() as int) == old_cells);
                    assert(texts(cells@) =~= old_cells + row);
                    assert(row.len() == 4);
                    match tail {
                        Some((c, l)) => {
                            assert(old_cells + (row + c) =~= (old_cells + row) + c);
                            assert(old_labels + (seq![label] + l) =~= old_labels.push(label) + l);
                        },
                        None => {},
                    }
                }
            },
        }
        pos = end + 1;
    }
    proof {
        assert(text@.skip(pos as int) =~= Seq::<char>::empty());
        assert(texts(cells@) + Seq::<Seq<char>>::empty() =~= texts(cells@));
        assert(labels@ + Seq::<u32>::empty() =~= labels@);
    }
    Ok(TableContent { cells, labels })
}

} // verus!
