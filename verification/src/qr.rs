//! The QR code that links this terminal, drawn with the terminal's own colors.
use vstd::prelude::*;

use crate::paths::with_suffix;
use crate::text::{blanks, has_part, spaces, stands_at};

verus! {

/// The empty cells around the code, on each side.
pub const QUIET_ZONE: usize = 2;

/// The width of the QR code of a text and its cells row by row, dark ones true,
/// or why it has none.
pub uninterp spec fn qr_code(text: Seq<char>) -> Result<(nat, Seq<bool>), Seq<char>>;

/// `qrcode::QrCode::new` on the UTF-8 bytes of the text; an error is given as its
/// text. The result is a function of the text alone, and is named `qr_code`; how
/// the cells come about is not spelled out. A code is a square of at most 177
/// cells a side, and its first cell is dark: the corner of a finder pattern.
#[verifier::external_body]
fn qr_cells(text: &str) -> (code: Result<(usize, Vec<bool>), String>)
    ensures
        match code {
            Ok((width, cells)) => {
                &&& qr_code(text@) == Ok::<(nat, Seq<bool>), Seq<char>>((width as nat, cells@))
                &&& 0 < width <= 177
                &&& cells@.len() == width * width
                &&& cells@[0]
            },
            Err(cause) => qr_code(text@) == Err::<(nat, Seq<bool>), Seq<char>>(cause@),
        },
{
    let code = qrcode::QrCode::new(text.as_bytes()).map_err(|error| error.to_string())?;
    let width = code.width();
    Ok((width, code.into_colors().into_iter().map(|cell| cell.select(true, false)).collect()))
}

/// One cell, two columns wide.
pub open spec fn cell_text(dark: bool) -> Seq<char> {
    if dark {
        "██"@
    } else {
        "  "@
    }
}

/// The first `count` cells of a row.
pub open spec fn cells_text(width: nat, cells: Seq<bool>, row: int, count: nat) -> Seq<char>
    decreases count,
{
    if count == 0 {
        Seq::empty()
    } else {
        cells_text(width, cells, row, (count - 1) as nat) + cell_text(
            cells[row * width + count - 1],
        )
    }
}

/// A row of the code with the quiet zone on both sides.
pub open spec fn row_text(width: nat, cells: Seq<bool>, row: int) -> Seq<char> {
    blanks(4) + cells_text(width, cells, row, width) + blanks(4) + "\n"@
}

/// The first `count` rows.
pub open spec fn rows_text(width: nat, cells: Seq<bool>, count: nat) -> Seq<char>
    decreases count,
{
    if count == 0 {
        Seq::empty()
    } else {
        rows_text(width, cells, (count - 1) as nat) + row_text(width, cells, count - 1)
    }
}

/// A row of the quiet zone.
pub open spec fn quiet_row(width: nat) -> Seq<char> {
    blanks((width + 4) * 2) + "\n"@
}

/// The code with the quiet zone all round.
pub open spec fn qr_text(width: nat, cells: Seq<bool>) -> Seq<char> {
    quiet_row(width) + quiet_row(width) + rows_text(width, cells, width) + quiet_row(width)
        + quiet_row(width)
}

/// Draws a code with the quiet zone all round.
pub fn render_qr(width: usize, cells: &Vec<bool>) -> (output: String)
    requires
        cells@.len() == width * width,
        (width + 4) * 2 <= usize::MAX,
    ensures
        output@ == qr_text(width as nat, cells@),
{
    let mut empty_row = spaces((width + QUIET_ZONE * 2) * 2);
    empty_row.push_str("\n");
    let mut output: String = String::new();
    output.push_str(empty_row.as_str());
    output.push_str(empty_row.as_str());
    let ghost top = output@;
    assert(top =~= quiet_row(width as nat) + quiet_row(width as nat));
    assert(top + rows_text(width as nat, cells@, 0) =~= top);
    for y in 0..width
        invariant
            cells@.len() == width * width,
            output@ == top + rows_text(width as nat, cells@, y as nat),
    {
        let ghost above = output@;
        output.push_str(spaces(QUIET_ZONE * 2).as_str());
        let ghost start = output@;
        assert(start + cells_text(width as nat, cells@, y as int, 0) =~= start);
        for x in 0..width
            invariant
                cells@.len() == width * width,
                y < width,
                output@ == start + cells_text(width as nat, cells@, y as int, x as nat),
        {
            assert(y * width + x < width * width) by (nonlinear_arith)
                requires
                    0 <= y < width,
                    0 <= x < width,
            ;
            assert(0 <= y * width) by (nonlinear_arith)
                requires
                    0 <= y,
                    0 <= width,
            ;
            assert(y * width + x < cells.len());
            let ghost left = output@;
            output.push_str(
                if cells[y * width + x] {
                    "██"
                } else {
                    "  "
                },
            );
            assert(output@ =~= start + cells_text(width as nat, cells@, y as int, (x + 1) as nat));
        }
        output.push_str(spaces(QUIET_ZONE * 2).as_str());
        output.push_str("\n");
        assert(output@ =~= above + row_text(width as nat, cells@, y as int));
        assert(output@ =~= top + rows_text(width as nat, cells@, (y + 1) as nat));
    }
    output.push_str(empty_row.as_str());
    output.push_str(empty_row.as_str());
    assert(output@ =~= qr_text(width as nat, cells@));
    output
}

/// A character of a drawn code: a space, a full block or a line end.
pub open spec fn plain_char(c: char) -> bool {
    c == ' ' || c == '█' || c == '\n'
}

/// Whether a text holds spaces, full blocks and line ends only.
pub open spec fn is_plain(text: Seq<char>) -> bool {
    forall|i: int| 0 <= i < text.len() ==> plain_char(#[trigger] text[i])
}

/// The QR code of a text, drawn with the terminal's own colors. It shows at least
/// one full cell, and holds no escape sequence.
pub fn transparent_qr(value: &str) -> (result: Result<String, String>)
    ensures
        match qr_code(value@) {
            Ok((width, cells)) => result is Ok && result->Ok_0@ == qr_text(width, cells),
            Err(cause) => result is Err && result->Err_0@ == "encode provisioning QR code: "@
                + cause,
        },
        result matches Ok(text) ==> has_part(text@, "██"@) && is_plain(text@),
{
    match qr_cells(value) {
        Ok((width, cells)) => {
            let text = render_qr(width, &cells);
            proof {
                every_cell_is_drawn(width as nat, cells@, 0, 0);
                assert(stands_at(text@, "██"@, cell_place(width as nat, 0, 0)));
                assert forall|i: int| 0 <= i < text@.len() implies plain_char(
                    #[trigger] text@[i],
                ) by {
                    qr_uses_no_escapes(width as nat, cells@, i);
                }
            }
            Ok(text)
        },
        Err(cause) => Err(with_suffix("encode provisioning QR code: ", cause.as_str())),
    }
}

proof fn lemma_plain_cells(width: nat, cells: Seq<bool>, row: int, count: nat, i: int)
    requires
        0 <= i < cells_text(width, cells, row, count).len(),
    ensures
        cells_text(width, cells, row, count)[i] == ' ' || cells_text(width, cells, row, count)[i]
            == '█',
    decreases count,
{
    reveal_strlit("██");
    reveal_strlit("  ");
    if count > 0 {
        let before = cells_text(width, cells, row, (count - 1) as nat);
        if i < before.len() {
            lemma_plain_cells(width, cells, row, (count - 1) as nat, i);
        }
    }
}

proof fn lemma_plain_rows(width: nat, cells: Seq<bool>, count: nat, i: int)
    requires
        0 <= i < rows_text(width, cells, count).len(),
    ensures
        ({
            let c = rows_text(width, cells, count)[i];
            c == ' ' || c == '█' || c == '\n'
        }),
    decreases count,
{
    reveal_strlit("\n");
    if count > 0 {
        let before = rows_text(width, cells, (count - 1) as nat);
        if i < before.len() {
            lemma_plain_rows(width, cells, (count - 1) as nat, i);
        } else {
            let inner = i - before.len() - 4;
            if 0 <= inner < cells_text(width, cells, count - 1, width).len() {
                lemma_plain_cells(width, cells, count - 1, width, inner);
            }
        }
    }
}

/// A drawn code holds spaces, full blocks and line ends, and so no escape
/// sequence: it shows in the terminal's own colors.
pub proof fn qr_uses_no_escapes(width: nat, cells: Seq<bool>, i: int)
    requires
        0 <= i < qr_text(width, cells).len(),
    ensures
        ({
            let c = qr_text(width, cells)[i];
            c == ' ' || c == '█' || c == '\n'
        }),
{
    reveal_strlit("\n");
    let quiet = quiet_row(width).len();
    let inner = i - 2 * quiet;
    if 0 <= inner < rows_text(width, cells, width).len() {
        lemma_plain_rows(width, cells, width, inner);
    }
}

/// The length of a line of the drawn code with its end.
pub open spec fn line_length(width: nat) -> nat {
    2 * width + 9
}

/// Where a cell stands in the drawn code.
pub open spec fn cell_place(width: nat, row: int, column: int) -> int {
    (2 + row) * line_length(width) + 4 + 2 * column
}

proof fn lemma_cell_in_row(width: nat, cells: Seq<bool>, row: int, count: nat, column: int)
    ensures
        cells_text(width, cells, row, count).len() == 2 * count,
        0 <= column < count ==> stands_at(
            cells_text(width, cells, row, count),
            cell_text(cells[row * width + column]),
            2 * column,
        ),
    decreases count,
{
    reveal_strlit("██");
    reveal_strlit("  ");
    if count > 0 {
        let before = cells_text(width, cells, row, (count - 1) as nat);
        let all = cells_text(width, cells, row, count);
        lemma_cell_in_row(width, cells, row, (count - 1) as nat, column);
        let cell = cell_text(cells[row * width + column]);
        if 0 <= column < count - 1 {
            assert(all.subrange(2 * column, 2 * column + 2) =~= before.subrange(
                2 * column,
                2 * column + 2,
            ));
        } else if column == count - 1 {
            assert(all.subrange(2 * column, 2 * column + 2) =~= cell);
        }
    }
}

proof fn lemma_row_length(width: nat, cells: Seq<bool>, row: int)
    ensures
        row_text(width, cells, row).len() == line_length(width),
        quiet_row(width).len() == line_length(width),
{
    reveal_strlit("\n");
    lemma_cell_in_row(width, cells, row, width, 0);
}

proof fn lemma_row_in_rows(width: nat, cells: Seq<bool>, count: nat, row: int)
    ensures
        rows_text(width, cells, count).len() == count * line_length(width),
        0 <= row < count ==> stands_at(
            rows_text(width, cells, count),
            row_text(width, cells, row),
            row * line_length(width),
        ),
    decreases count,
{
    let length = line_length(width) as int;
    if count > 0 {
        let before = rows_text(width, cells, (count - 1) as nat);
        let all = rows_text(width, cells, count);
        lemma_row_in_rows(width, cells, (count - 1) as nat, row);
        lemma_row_length(width, cells, count - 1);
        lemma_row_length(width, cells, row);
        assert(count * length == (count - 1) * length + length) by (nonlinear_arith);
        if 0 <= row < count - 1 {
            assert(all.subrange(row * length, row * length + length) =~= before.subrange(
                row * length,
                row * length + length,
            ));
        } else if row == count - 1 {
            assert(all.subrange(row * length, row * length + length) =~= row_text(
                width,
                cells,
                row,
            ));
        }
    }
}

/// Every cell of a code is drawn at its own place, two columns wide: row by row,
/// behind the quiet zone.
pub proof fn every_cell_is_drawn(width: nat, cells: Seq<bool>, row: int, column: int)
    requires
        0 <= row < width,
        0 <= column < width,
    ensures
        stands_at(
            qr_text(width, cells),
            cell_text(cells[row * width + column]),
            cell_place(width, row, column),
        ),
{
    reveal_strlit("██");
    reveal_strlit("  ");
    let length = line_length(width) as int;
    let rows = rows_text(width, cells, width);
    let line = row_text(width, cells, row);
    let inner = cells_text(width, cells, row, width);
    let cell = cell_text(cells[row * width + column]);
    let all = qr_text(width, cells);
    lemma_cell_in_row(width, cells, row, width, column);
    lemma_row_length(width, cells, row);
    lemma_row_in_rows(width, cells, width, row);
    assert((2 + row) * length == 2 * length + row * length) by (nonlinear_arith);
    assert(0 <= row * length) by (nonlinear_arith)
        requires
            0 <= row,
            0 <= length,
    ;
    let at = cell_place(width, row, column);
    assert forall|i: int| 0 <= i < 2 implies #[trigger] all.subrange(at, at + 2)[i] == cell[i] by {
        let in_line = 4 + 2 * column + i;
        let in_rows = row * length + in_line;
        assert(all[at + i] == rows[in_rows]);
        assert(rows.subrange(row * length, row * length + length)[in_line] == rows[in_rows]);
        assert(line[in_line] == inner[2 * column + i]);
        assert(inner.subrange(2 * column, 2 * column + 2)[i] == inner[2 * column + i]);
    }
    assert(all.subrange(at, at + 2) =~= cell);
}

/// A cell of a code is two characters wide, in the line of its row: two blocks
/// where it is dark, two blanks where it is not. Two blank cells lie to its left
/// and two lines above the first row, and each line is two cells wider on either
/// side than the code.
pub proof fn dark_cells_are_blocks(width: nat, cells: Seq<bool>, row: int, column: int)
    requires
        0 <= row < width,
        0 <= column < width,
    ensures
        ({
            let text = qr_text(width, cells);
            let at = (2 + row) * (2 * (width + 4) + 1) + 4 + 2 * column;
            &&& 0 <= at
            &&& at + 1 < text.len()
            &&& cells[row * width + column] ==> text[at] == '█' && text[at + 1] == '█'
            &&& !cells[row * width + column] ==> text[at] == ' ' && text[at + 1] == ' '
        }),
{
    reveal_strlit("██");
    reveal_strlit("  ");
    every_cell_is_drawn(width, cells, row, column);
    let text = qr_text(width, cells);
    let at = cell_place(width, row, column);
    let cell = cell_text(cells[row * width + column]);
    assert(text.subrange(at, at + cell.len())[0] == text[at]);
    assert(text.subrange(at, at + cell.len())[1] == text[at + 1]);
    assert(2 * (width + 4) + 1 == 2 * width + 9);
}

/// A code has as many lines as it has rows, and two more above and below; each
/// is as long as the others.
pub proof fn codes_are_framed(width: nat, cells: Seq<bool>)
    ensures
        qr_text(width, cells).len() == (width + 4) * (2 * (width + 4) + 1),
        forall|i: int|
            0 <= i < 2 * (width + 4) ==> #[trigger] qr_text(width, cells)[i] == ' ',
{
    reveal_strlit("\n");
    lemma_rows_length(width, cells, width);
    let line = 2 * (width + 4) + 1;
    assert(quiet_row(width).len() == line);
    assert((width + 4) * line == width * line + 4 * line) by (nonlinear_arith);
    assert(forall|i: int|
        0 <= i < 2 * (width + 4) ==> #[trigger] qr_text(width, cells)[i] == quiet_row(width)[i]);
}

proof fn lemma_rows_length(width: nat, cells: Seq<bool>, count: nat)
    ensures
        rows_text(width, cells, count).len() == count * (2 * (width + 4) + 1),
    decreases count,
{
    let line = 2 * (width + 4) + 1;
    if count > 0 {
        lemma_rows_length(width, cells, (count - 1) as nat);
        lemma_row_length(width, cells, count - 1);
        assert(count * line == (count - 1) * line + line) by (nonlinear_arith);
    } else {
        assert(0 * line == 0);
    }
}

} // verus!
