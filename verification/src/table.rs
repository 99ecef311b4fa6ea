//! The table exporter: the labeled dataset as delimited text.
//!
//! The table has a header line and one line per row. A line holds the true
//! `x`, the true `y`, the observed `x`, the observed `y` and the cluster
//! label, separated by commas and ended by a line feed. The label is written
//! here, in decimal. The four reals of a row are written by the caller, who
//! is told which numbers to render and hands back one piece of text for
//! each.
use crate::clustering::LabeledDataset;
use crate::error::PipelineError;
use crate::sample::LabeledSample;
use crate::scalar::Scalar;
use vstd::prelude::*;
use vstd::string::*;

verus! {

/// The number of reals in a row.
pub const REALS_PER_ROW: usize = 4;

/// The header line, without its line feed.
pub open spec fn header() -> Seq<char> {
    "x,y,x_noisy,y_noisy,cluster"@
}

/// The decimal digit for a value below ten.
pub open spec fn digit(d: nat) -> char {
    if d == 0 {
        '0'
    } else if d == 1 {
        '1'
    } else if d == 2 {
        '2'
    } else if d == 3 {
        '3'
    } else if d == 4 {
        '4'
    } else if d == 5 {
        '5'
    } else if d == 6 {
        '6'
    } else if d == 7 {
        '7'
    } else if d == 8 {
        '8'
    } else {
        '9'
    }
}

/// A number in decimal, most significant digit first, without leading
/// zeros.
pub open spec fn decimal(n: nat) -> Seq<char>
    decreases n,
{
    if n < 10 {
        seq![digit(n)]
    } else {
        decimal(n / 10).push(digit(n % 10))
    }
}

/// A character that may stand in a field: visible, ASCII, and neither the
/// comma nor the double quote.
pub open spec fn is_field_char(c: char) -> bool {
    '!' <= c <= '~' && c != ',' && c != '"'
}

/// A field is a non-empty run of field characters. Such text needs no
/// quoting, and where it ends in a line is never in doubt.
pub open spec fn is_field(cell: Seq<char>) -> bool {
    cell.len() > 0 && forall|i: int| 0 <= i < cell.len() ==> is_field_char(#[trigger] cell[i])
}

/// The reals to render for the table: four per row, row by row, in the
/// order true `x`, true `y`, observed `x`, observed `y`.
pub open spec fn numbers(rows: Seq<LabeledSample>) -> Seq<Scalar> {
    Seq::new(
        4 * rows.len(),
        |i: int|
            {
                let sample = rows[i / 4].sample;
                if i % 4 == 0 {
                    sample.truth.x
                } else if i % 4 == 1 {
                    sample.truth.y
                } else if i % 4 == 2 {
                    sample.noisy.x
                } else {
                    sample.noisy.y
                }
            },
    )
}

/// One line of the table: four rendered reals and the label, with the line
/// feed.
pub open spec fn line(
    true_x: Seq<char>,
    true_y: Seq<char>,
    noisy_x: Seq<char>,
    noisy_y: Seq<char>,
    label: u32,
) -> Seq<char> {
    true_x.push(',') + true_y.push(',') + noisy_x.push(',') + noisy_y.push(',') + decimal(
        label as nat,
    ).push('\n')
}

/// The lines of the first `n` rows, where row `i` has the label `labels[i]`
/// and its reals are rendered in `cells[4 * i]` to `cells[4 * i + 3]`.
pub open spec fn lines(labels: Seq<u32>, cells: Seq<Seq<char>>, n: nat) -> Seq<char>
    decreases n,
{
    if n == 0 {
        Seq::empty()
    } else {
        let i = n - 1;
        lines(labels, cells, i as nat) + line(
            cells[4 * i],
            cells[4 * i + 1],
            cells[4 * i + 2],
            cells[4 * i + 3],
            labels[i],
        )
    }
}

/// The whole table: the header line, then one line per row in row order.
pub open spec fn table(labels: Seq<u32>, cells: Seq<Seq<char>>) -> Seq<char> {
    header().push('\n') + lines(labels, cells, labels.len())
}

/// There are four cells per row, and every cell is a field.
pub open spec fn cells_fit(rows: nat, cells: Seq<Seq<char>>) -> bool {
    &&& cells.len() == 4 * rows
    &&& forall|i: int| 0 <= i < cells.len() ==> is_field(#[trigger] cells[i])
}

/// The text of each cell.
pub open spec fn texts(cells: Seq<String>) -> Seq<Seq<char>> {
    Seq::new(cells.len(), |i: int| cells[i]@)
}

/// The text of one decimal digit.
fn digit_text(d: u32) -> (s: &'static str)
    requires
        d < 10,
    ensures
        s@ == seq![digit(d as nat)],
{
    proof {
        reveal_strlit("0");
        reveal_strlit("1");
        reveal_strlit("2");
        reveal_strlit("3");
        reveal_strlit("4");
        reveal_strlit("5");
        reveal_strlit("6");
        reveal_strlit("7");
        reveal_strlit("8");
        reveal_strlit("9");
    }
    let s = if d == 0 {
        "0"
    } else if d == 1 {
        "1"
    } else if d == 2 {
        "2"
    } else if d == 3 {
        "3"
    } else if d == 4 {
        "4"
    } else if d == 5 {
        "5"
    } else if d == 6 {
        "6"
    } else if d == 7 {
        "7"
    } else if d == 8 {
        "8"
    } else {
        "9"
    };
    assert(s@ =~= seq![digit(d as nat)]);
    s
}

/// Appends `n` in decimal to `out`.
pub fn push_decimal(out: &mut String, n: u32)
    ensures
        final(out)@ == old(out)@ + decimal(n as nat),
    decreases n,
{
    if n >= 10 {
        push_decimal(out, n / 10);
    }
    out.append(digit_text(n % 10));
    assert(out@ =~= old(out)@ + decimal(n as nat));
}

/// Whether `cell` is a field.
pub fn is_field_text(cell: &str) -> (b: bool)
    ensures
        b == is_field(cell@),
{
    if !cell.is_ascii() {
        proof {
            let i = choose|i: int| 0 <= i < cell@.len() && !('\0' <= #[trigger] cell@[i] <= '\u{7f}');
            assert(!is_field_char(cell@[i]));
        }
        return false;
    }
    let n = cell.unicode_len();
    if n == 0 {
        return false;
    }
    let mut i: usize = 0;
    while i < n
        invariant
            i <= n,
            n == cell@.len(),
            cell.is_ascii(),
            forall|h: int| 0 <= h < i ==> is_field_char(#[trigger] cell@[h]),
        decreases n - i,
    {
        let b = cell.get_ascii(i);
        if b < 0x21 || b > 0x7E || b == 0x2C || b == 0x22 {
            assert(!is_field_char(cell@[i as int]));
            return false;
        }
        assert(is_field_char(cell@[i as int]));
        i += 1;
    }
    true
}

/// The reals of the table in the order in which their text is expected by
/// `encode_table`.
pub fn table_numbers(data: &LabeledDataset) -> (out: Vec<Scalar>)
    ensures
        out@ == numbers(data@.rows),
{
    let rows = data.rows();
    let mut out: Vec<Scalar> = Vec::new();
    let mut i: usize = 0;
    while i < rows.len()
        invariant
            i <= rows.len(),
            out@ == numbers(rows@.take(i as int)),
        decreases rows.len() - i,
    {
        let sample = rows[i].sample;
        out.push(sample.truth.x);
        out.push(sample.truth.y);
        out.push(sample.noisy.x);
        out.push(sample.noisy.y);
        assert(out@ =~= numbers(rows@.take(i + 1)));
        i += 1;
    }
    assert(rows@.take(i as int) =~= rows@);
    out
}

/// Writes the table of `data`, with `cells` as the text of its reals:
/// `cells[4 * i]` to `cells[4 * i + 3]` render the four reals of row `i`, as
/// listed by `table_numbers`. The whole text is built before anything is
/// returned. Cells that do not number four per row, or a cell that is not a
/// field, are a shape error.
pub fn encode_table(data: &LabeledDataset, cells: &Vec<String>) -> (r: Result<
    String,
    PipelineError,
>)
    ensures
        r is Ok <==> cells_fit(data@.rows.len(), texts(cells@)),
        r matches Ok(text) ==> text@ == table(data@.labels(), texts(cells@)),
        r matches Err(e) ==> e == PipelineError::TableConstruction,
{
    let rows = data.rows();
    let ghost all = texts(cells@);
    let ghost labels = data@.labels();
    if rows.len() > usize::MAX / REALS_PER_ROW {
        assert(4 * rows.len() > usize::MAX);
        assert(all.len() == cells.len());
        return Err(PipelineError::TableConstruction);
    }
    if cells.len() != REALS_PER_ROW * rows.len() {
        assert(all.len() != 4 * rows.len());
        return Err(PipelineError::TableConstruction);
    }
    let mut out = String::from_str("x,y,x_noisy,y_noisy,cluster");
    out.append("\n");
    proof {
        reveal_strlit("\n");
        reveal_strlit(",");
        assert(out@ =~= header().push('\n'));
    }
    let mut i: usize = 0;
    while i < rows.len()
        invariant
            i <= rows.len(),
            rows@ == data@.rows,
            all == texts(cells@),
            cells.len() == 4 * rows.len(),
            ","@ == seq![','],
            "\n"@ == seq!['\n'],
            labels == data@.labels(),
            out@ == header().push('\n') + lines(labels, all, i as nat),
            forall|h: int| 0 <= h < 4 * i ==> is_field(#[trigger] all[h]),
        decreases rows.len() - i,
    {
        let ghost before = out@;
        let mut c: usize = 0;
        while c < REALS_PER_ROW
            invariant
                c <= 4,
                i < rows.len(),
                all == texts(cells@),
                cells.len() == 4 * rows.len(),
                ","@ == seq![','],
                forall|h: int| 0 <= h < 4 * i + c ==> is_field(#[trigger] all[h]),
                c == 0 ==> out@ == before,
                c == 1 ==> out@ == before + all[4 * i].push(','),
                c == 2 ==> out@ == before + all[4 * i].push(',') + all[4 * i + 1].push(','),
                c == 3 ==> out@ == before + all[4 * i].push(',') + all[4 * i + 1].push(',') + all[4
                    * i + 2].push(','),
                c == 4 ==> out@ == before + all[4 * i].push(',') + all[4 * i + 1].push(',') + all[4
                    * i + 2].push(',') + all[4 * i + 3].push(','),
            decreases 4 - c,
        {
            let cell = cells[REALS_PER_ROW * i + c].as_str();
            if !is_field_text(cell) {
                assert(!is_field(all[4 * i + c]));
                return Err(PipelineError::TableConstruction);
            }
            let ghost so_far = out@;
            out.append(cell);
            out.append(",");
            assert(out@ =~= so_far + all[4 * i + c].push(','));
            c += 1;
        }
        push_decimal(&mut out, rows[i].label);
        out.append("\n");
        proof {
            let row = line(
                all[4 * i],
                all[4 * i + 1],
                all[4 * i + 2],
                all[4 * i + 3],
                labels[i as int],
            );
            assert(out@ =~= before + row);
            assert(out@ =~= header().push('\n') + lines(labels, all, (i + 1) as nat));
        }
        i += 1;
    }
    Ok(out)
}

} // verus!
