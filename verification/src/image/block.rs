use vstd::prelude::*;

verus! {

/// A pixel: red, green, blue and opacity.
#[derive(Clone, Copy, Debug, PartialEq, Eq, Structural)]
pub struct Rgba8 {
    pub r: u8,
    pub g: u8,
    pub b: u8,
    pub a: u8,
}

/// A terminal colour: exact, or the nearest of the 256-colour palette.
#[derive(Clone, Copy, Debug, PartialEq, Eq, Structural)]
pub enum CellColor {
    Rgb(u8, u8, u8),
    Ansi256(u8),
}

/// The glyph printed in a cell: the upper or the lower half block.
#[derive(Clone, Copy, Debug, PartialEq, Eq, Structural)]
pub enum HalfBlock {
    Upper,
    Lower,
}

/// One step of printing an image with half blocks.
#[derive(Clone, Copy, Debug, PartialEq, Eq, Structural)]
pub enum BlockOp {
    /// Moves the cursor to a column and row.
    MoveTo(u16, u16),
    /// Moves the cursor right, leaving the cells as they are.
    MoveRight(u16),
    /// Prints a half block in a foreground colour over a background (or none).
    Glyph { fg: CellColor, bg: Option<CellColor>, block: HalfBlock },
    /// Resets the colours.
    Reset,
    /// Ends a line of cells, back at the left edge ("\r\n").
    NewLine,
    /// Ends the image ("\n").
    FinalNewLine,
}

/// The palette index that ansi_colours gives for an sRGB colour.
pub uninterp spec fn ansi256_of(r: u8, g: u8, b: u8) -> u8;

/// Calls `ansi_colours::ansi256_from_rgb`, which returns the index of the
/// 256-colour palette entry nearest the colour; the result is a function of
/// the colour alone, taken here by name.
#[verifier::external_body]
fn ansi256_from_rgb(r: u8, g: u8, b: u8) -> (idx: u8)
    ensures
        idx == ansi256_of(r, g, b),
{
    ansi_colours::ansi256_from_rgb((r, g, b))
}

/// A pixel that is fully transparent.
pub open spec fn transparent(p: Rgba8) -> bool {
    p.a == 0
}

pub fn is_pixel_transparent(p: Rgba8) -> (r: bool)
    ensures
        r == transparent(p),
{
    p.a == 0
}

/// The colour a pixel is printed in: its own where the terminal shows true
/// colour, else the nearest palette entry.
pub open spec fn pixel_color(p: Rgba8, truecolor: bool) -> CellColor {
    if truecolor {
        CellColor::Rgb(p.r, p.g, p.b)
    } else {
        CellColor::Ansi256(ansi256_of(p.r, p.g, p.b))
    }
}

pub fn get_color_from_pixel(p: Rgba8, truecolor: bool) -> (r: CellColor)
    ensures
        r == pixel_color(p, truecolor),
{
    if truecolor {
        CellColor::Rgb(p.r, p.g, p.b)
    } else {
        CellColor::Ansi256(ansi256_from_rgb(p.r, p.g, p.b))
    }
}

/// The colour a pixel leaves in its half of a cell; none where it is transparent.
pub open spec fn half_color(p: Rgba8, truecolor: bool) -> Option<CellColor> {
    if transparent(p) {
        None
    } else {
        Some(pixel_color(p, truecolor))
    }
}

fn get_half_color(p: Rgba8, truecolor: bool) -> (r: Option<CellColor>)
    ensures
        r == half_color(p, truecolor),
{
    if is_pixel_transparent(p) {
        None
    } else {
        Some(get_color_from_pixel(p, truecolor))
    }
}

/// How a cell is printed for the colours of its upper and lower halves: a
/// lower half block over the upper colour where both are there, one half
/// block where one is, the cell skipped where neither is. On a last row
/// standing alone only the upper half counts.
pub open spec fn cell_op(top: Option<CellColor>, bottom: Option<CellColor>, is_last_row: bool) -> BlockOp {
    if is_last_row {
        match top {
            Some(t) => BlockOp::Glyph { fg: t, bg: None, block: HalfBlock::Upper },
            None => BlockOp::MoveRight(1),
        }
    } else {
        match (bottom, top) {
            (None, None) => BlockOp::MoveRight(1),
            (Some(b), None) => BlockOp::Glyph { fg: b, bg: None, block: HalfBlock::Lower },
            (None, Some(t)) => BlockOp::Glyph { fg: t, bg: None, block: HalfBlock::Upper },
            (Some(b), Some(t)) => BlockOp::Glyph { fg: b, bg: Some(t), block: HalfBlock::Lower },
        }
    }
}

/// Decides how a cell is printed; see `cell_op`.
pub fn write_character(top: Option<CellColor>, bottom: Option<CellColor>, is_last_row: bool) -> (r: BlockOp)
    ensures
        r == cell_op(top, bottom, is_last_row),
{
    if is_last_row {
        match top {
            Some(t) => BlockOp::Glyph { fg: t, bg: None, block: HalfBlock::Upper },
            None => BlockOp::MoveRight(1),
        }
    } else {
        match (bottom, top) {
            (None, None) => BlockOp::MoveRight(1),
            (Some(b), None) => BlockOp::Glyph { fg: b, bg: None, block: HalfBlock::Lower },
            (None, Some(t)) => BlockOp::Glyph { fg: t, bg: None, block: HalfBlock::Upper },
            (Some(b), Some(t)) => BlockOp::Glyph { fg: b, bg: Some(t), block: HalfBlock::Lower },
        }
    }
}

/// The move that starts a line of cells `x` columns in (none at the edge).
pub open spec fn indent(x: u16) -> Seq<BlockOp> {
    if x > 0 {
        seq![BlockOp::MoveRight(x)]
    } else {
        Seq::empty()
    }
}

/// The cells of a line made of the rows `top` and `bottom`, or of `top`
/// alone on a last row standing alone.
pub open spec fn line_cells(top: Seq<Rgba8>, bottom: Seq<Rgba8>, alone: bool, truecolor: bool) -> Seq<BlockOp> {
    Seq::new(
        top.len(),
        |c: int|
            if alone {
                cell_op(half_color(top[c], truecolor), None, true)
            } else {
                cell_op(half_color(top[c], truecolor), half_color(bottom[c], truecolor), false)
            },
    )
}

/// Rows of one width.
pub open spec fn rectangular(rows: Seq<Seq<Rgba8>>) -> bool {
    forall|i: int| 0 <= i < rows.len() ==> #[trigger] rows[i].len() == rows[0].len()
}

/// The steps that print `rows`, two rows to a line of cells: each line
/// starts `x` columns in, and all but the last end with a reset and a new
/// line; an odd last row stands alone in its line.
pub open spec fn rows_ops(rows: Seq<Seq<Rgba8>>, truecolor: bool, x: u16) -> Seq<BlockOp>
    decreases rows.len(),
{
    if rows.len() == 0 {
        Seq::empty()
    } else if rows.len() == 1 {
        indent(x) + line_cells(rows[0], Seq::empty(), true, truecolor)
    } else if rows.len() == 2 {
        indent(x) + line_cells(rows[0], rows[1], false, truecolor)
    } else {
        indent(x) + line_cells(rows[0], rows[1], false, truecolor) + seq![BlockOp::Reset, BlockOp::NewLine] + rows_ops(
            rows.skip(2),
            truecolor,
            x,
        )
    }
}

/// The steps that print an image of `rows` (all of one width) at column
/// `x`, row `y`: the move to the row, the lines of cells, a reset and the
/// final new line.
pub open spec fn image_ops(rows: Seq<Seq<Rgba8>>, truecolor: bool, x: u16, y: u16) -> Seq<BlockOp> {
    seq![BlockOp::MoveTo(0, y)] + rows_ops(rows, truecolor, x) + seq![BlockOp::Reset, BlockOp::FinalNewLine]
}

/// Where the cells of the line made of rows `2 * j` and `2 * j + 1` (or of
/// row `2 * j` alone) stand in `rows_ops`, and what they are.
proof fn lemma_rows_ops_cell(rows: Seq<Seq<Rgba8>>, truecolor: bool, x: u16, j: int, c: int)
    requires
        rectangular(rows),
        0 <= j,
        2 * j < rows.len(),
        0 <= c < rows[0].len(),
    ensures
        ({
            let l = indent(x).len() + rows[0].len() + 2;
            let i = j * l + indent(x).len() + c;
            &&& 0 <= i < rows_ops(rows, truecolor, x).len()
            &&& rows_ops(rows, truecolor, x)[i] == if 2 * j + 1 < rows.len() {
                cell_op(half_color(rows[2 * j][c], truecolor), half_color(rows[2 * j + 1][c], truecolor), false)
            } else {
                cell_op(half_color(rows[2 * j][c], truecolor), None, true)
            }
        }),
    decreases rows.len(),
{
    let w = rows[0].len() as int;
    let d = indent(x).len() as int;
    let l = d + w + 2;
    let n = rows.len() as int;
    if n == 1 {
        let line = line_cells(rows[0], Seq::empty(), true, truecolor);
        assert(rows_ops(rows, truecolor, x) == indent(x) + line);
        assert((indent(x) + line)[d + c] == line[c]);
    } else if n == 2 {
        assert(rows[1].len() == w);
        let line = line_cells(rows[0], rows[1], false, truecolor);
        assert(rows_ops(rows, truecolor, x) == indent(x) + line);
        assert((indent(x) + line)[d + c] == line[c]);
    } else {
        assert(rows[1].len() == w);
        let line = line_cells(rows[0], rows[1], false, truecolor);
        let head = indent(x) + line + seq![BlockOp::Reset, BlockOp::NewLine];
        let rest = rows.skip(2);
        assert(rows_ops(rows, truecolor, x) == head + rows_ops(rest, truecolor, x));
        assert(head.len() == l);
        if j == 0 {
            assert(head[d + c] == line[c]);
        } else {
            assert forall|k: int| 0 <= k < rest.len() implies #[trigger] rest[k].len() == rest[0].len() by {
                assert(rest[k] == rows[k + 2]);
                assert(rest[0] == rows[2]);
            }
            assert(rest[0] == rows[2]);
            lemma_rows_ops_cell(rest, truecolor, x, j - 1, c);
            assert(rest[2 * (j - 1)] == rows[2 * j]);
            if 2 * j + 1 < n {
                assert(rest[2 * (j - 1) + 1] == rows[2 * j + 1]);
            }
            assert((j - 1) * l + l == j * l) by (nonlinear_arith);
            assert((j - 1) * l >= 0) by (nonlinear_arith)
                requires
                    j >= 1,
                    l >= 0,
            ;
        }
    }
}

/// Printing an image with half blocks gives each pair of rows one line of
/// cells, the cell in column `c` of line `j` standing right after the line's
/// start (the move to the image, then for each line before it its cells,
/// its reset and its new line, and the move `x` columns in). In that cell
/// the upper row's pixel shows in the upper half and the lower row's in the
/// lower half: a lower half block in the lower pixel's colour over the upper
/// pixel's colour, one half block where only one pixel shows, nothing where
/// neither does. A last row standing alone shows in upper half blocks. A
/// pixel shows unless it is fully transparent, in its own colour where the
/// terminal shows true colour and else in the nearest palette entry.
pub proof fn lemma_block_cell(rows: Seq<Seq<Rgba8>>, truecolor: bool, x: u16, y: u16, j: int, c: int)
    requires
        rectangular(rows),
        0 <= j,
        2 * j < rows.len(),
        0 <= c < rows[0].len(),
    ensures
        ({
            let d: int = if x > 0 { 1 } else { 0 };
            let i = 1 + j * (d + rows[0].len() + 2) + d + c;
            let ops = image_ops(rows, truecolor, x, y);
            let up = rows[2 * j][c];
            &&& ops[0] == BlockOp::MoveTo(0, y)
            &&& 0 < i < ops.len() - 2
            &&& transparent(up) <==> up.a == 0
            &&& pixel_color(up, truecolor) == if truecolor {
                CellColor::Rgb(up.r, up.g, up.b)
            } else {
                CellColor::Ansi256(ansi256_of(up.r, up.g, up.b))
            }
            &&& 2 * j + 1 < rows.len() ==> {
                let low = rows[2 * j + 1][c];
                &&& transparent(low) <==> low.a == 0
                &&& pixel_color(low, truecolor) == if truecolor {
                    CellColor::Rgb(low.r, low.g, low.b)
                } else {
                    CellColor::Ansi256(ansi256_of(low.r, low.g, low.b))
                }
            }
            &&& 2 * j + 1 < rows.len() ==> {
                let low = rows[2 * j + 1][c];
                &&& !transparent(up) && !transparent(low) ==> ops[i] == BlockOp::Glyph {
                    fg: pixel_color(low, truecolor),
                    bg: Some(pixel_color(up, truecolor)),
                    block: HalfBlock::Lower,
                }
                &&& !transparent(up) && transparent(low) ==> ops[i] == BlockOp::Glyph {
                    fg: pixel_color(up, truecolor),
                    bg: None,
                    block: HalfBlock::Upper,
                }
                &&& transparent(up) && !transparent(low) ==> ops[i] == BlockOp::Glyph {
                    fg: pixel_color(low, truecolor),
                    bg: None,
                    block: HalfBlock::Lower,
                }
                &&& transparent(up) && transparent(low) ==> ops[i] == BlockOp::MoveRight(1)
            }
            &&& 2 * j + 1 == rows.len() ==> {
                &&& !transparent(up) ==> ops[i] == BlockOp::Glyph {
                    fg: pixel_color(up, truecolor),
                    bg: None,
                    block: HalfBlock::Upper,
                }
                &&& transparent(up) ==> ops[i] == BlockOp::MoveRight(1)
            }
        }),
{
    lemma_rows_ops_cell(rows, truecolor, x, j, c);
    let body = rows_ops(rows, truecolor, x);
    let d: int = if x > 0 { 1 } else { 0 };
    assert(indent(x).len() == d);
    let i = j * (d + rows[0].len() + 2) + d + c;
    let ops = image_ops(rows, truecolor, x, y);
    assert(ops == seq![BlockOp::MoveTo(0, y)] + body + seq![BlockOp::Reset, BlockOp::FinalNewLine]);
    assert(ops[1 + i] == body[i]);
    assert(ops[0] == BlockOp::MoveTo(0, y));
}

/// How long `rows_ops` is: a line of cells per two rows (an odd last row
/// makes a line of its own), each line its start, its cells, then a reset and
/// a new line but for the last.
proof fn lemma_rows_ops_len(rows: Seq<Seq<Rgba8>>, truecolor: bool, x: u16)
    requires
        rectangular(rows),
    ensures
        rows.len() == 0 ==> rows_ops(rows, truecolor, x).len() == 0,
        rows.len() > 0 ==> rows_ops(rows, truecolor, x).len() == ((rows.len() + 1) / 2) * (indent(x).len() + rows[0].len() + 2) - 2,
    decreases rows.len(),
{
    let n = rows.len() as int;
    if n == 0 {
    } else if n <= 2 {
        let w = rows[0].len() as int;
        let l = indent(x).len() + w + 2;
        if n == 2 {
            assert(rows[1].len() == rows[0].len());
            assert(rows_ops(rows, truecolor, x) == indent(x) + line_cells(rows[0], rows[1], false, truecolor));
        } else {
            assert(rows_ops(rows, truecolor, x) == indent(x) + line_cells(rows[0], Seq::empty(), true, truecolor));
        }
        assert((n + 1) / 2 == 1);
        assert(1 * l == l);
    } else {
        let w = rows[0].len() as int;
        let l = indent(x).len() + w + 2;
        let rest = rows.skip(2);
        assert(rows[1].len() == w);
        assert forall|k: int| 0 <= k < rest.len() implies #[trigger] rest[k].len() == rest[0].len() by {
            assert(rest[k] == rows[k + 2]);
            assert(rest[0] == rows[2]);
        }
        assert(rest[0] == rows[2]);
        lemma_rows_ops_len(rest, truecolor, x);
        let a = (n - 1) / 2;
        assert((n + 1) / 2 == a + 1);
        assert((rest.len() + 1) / 2 == a);
        assert(rows_ops(rows, truecolor, x) == indent(x) + line_cells(rows[0], rows[1], false, truecolor) + seq![
            BlockOp::Reset,
            BlockOp::NewLine,
        ] + rows_ops(rest, truecolor, x));
        assert((a + 1) * l == a * l + l) by (nonlinear_arith);
    }
}

/// Where the start and the end of line `j` stand in `rows_ops`.
proof fn lemma_rows_ops_line(rows: Seq<Seq<Rgba8>>, truecolor: bool, x: u16, j: int)
    requires
        rectangular(rows),
        0 <= j,
        2 * j < rows.len(),
    ensures
        ({
            let d = indent(x).len() as int;
            let w = rows[0].len() as int;
            let l = d + w + 2;
            let ops = rows_ops(rows, truecolor, x);
            &&& x > 0 ==> 0 <= j * l < ops.len() && ops[j * l] == BlockOp::MoveRight(x)
            &&& 2 * j + 2 < rows.len() ==> 0 <= j * l + d + w && j * l + d + w + 1 < ops.len()
                && ops[j * l + d + w] == BlockOp::Reset && ops[j * l + d + w + 1] == BlockOp::NewLine
        }),
    decreases rows.len(),
{
    let w = rows[0].len() as int;
    let d = indent(x).len() as int;
    let l = d + w + 2;
    let n = rows.len() as int;
    if n == 1 {
        let line = line_cells(rows[0], Seq::empty(), true, truecolor);
        assert(rows_ops(rows, truecolor, x) == indent(x) + line);
    } else if n == 2 {
        assert(rows[1].len() == w);
        let line = line_cells(rows[0], rows[1], false, truecolor);
        assert(rows_ops(rows, truecolor, x) == indent(x) + line);
    } else {
        assert(rows[1].len() == w);
        let line = line_cells(rows[0], rows[1], false, truecolor);
        let head = indent(x) + line + seq![BlockOp::Reset, BlockOp::NewLine];
        let rest = rows.skip(2);
        assert(rows_ops(rows, truecolor, x) == head + rows_ops(rest, truecolor, x));
        assert(head.len() == l);
        if j == 0 {
            assert(head[d + w] == BlockOp::Reset);
            assert(head[d + w + 1] == BlockOp::NewLine);
        } else {
            assert forall|k: int| 0 <= k < rest.len() implies #[trigger] rest[k].len() == rest[0].len() by {
                assert(rest[k] == rows[k + 2]);
                assert(rest[0] == rows[2]);
            }
            assert(rest[0] == rows[2]);
            lemma_rows_ops_line(rest, truecolor, x, j - 1);
            assert((j - 1) * l + l == j * l) by (nonlinear_arith);
            assert((j - 1) * l >= 0) by (nonlinear_arith)
                requires
                    j >= 1,
                    l >= 0,
            ;
        }
    }
}

/// Printing an image with half blocks moves to row `y` at the left edge,
/// prints a line of cells per two rows of pixels (an odd last row makes a
/// line of its own), and ends with a reset and a final new line. Each line
/// starts with a move `x` columns right (none where `x` is 0), has one cell
/// per column, and all lines but the last end with a reset and a new line.
pub proof fn lemma_block_layout(rows: Seq<Seq<Rgba8>>, truecolor: bool, x: u16, y: u16, j: int)
    requires
        rectangular(rows),
    ensures
        ({
            let n = rows.len() as int;
            let d: int = if x > 0 { 1 } else { 0 };
            let w = if n > 0 { rows[0].len() as int } else { 0 };
            let l = d + w + 2;
            let ops = image_ops(rows, truecolor, x, y);
            &&& ops.len() == if n == 0 { 3 } else { ((n + 1) / 2) * l + 1 }
            &&& ops[0] == BlockOp::MoveTo(0, y)
            &&& ops[ops.len() - 2] == BlockOp::Reset
            &&& ops[ops.len() - 1] == BlockOp::FinalNewLine
            &&& 0 <= j && 2 * j < n && x > 0 ==> ops[1 + j * l] == BlockOp::MoveRight(x)
            &&& 0 <= j && 2 * j + 2 < n ==> ops[1 + j * l + d + w] == BlockOp::Reset
                && ops[1 + j * l + d + w + 1] == BlockOp::NewLine
        }),
{
    let n = rows.len() as int;
    let d: int = if x > 0 { 1 } else { 0 };
    assert(indent(x).len() == d);
    lemma_rows_ops_len(rows, truecolor, x);
    let body = rows_ops(rows, truecolor, x);
    let ops = image_ops(rows, truecolor, x, y);
    assert(ops == seq![BlockOp::MoveTo(0, y)] + body + seq![BlockOp::Reset, BlockOp::FinalNewLine]);
    assert(ops.len() == body.len() + 3);
    assert(ops[ops.len() - 2] == BlockOp::Reset);
    assert(ops[ops.len() - 1] == BlockOp::FinalNewLine);
    if 0 <= j && 2 * j < n {
        lemma_rows_ops_line(rows, truecolor, x, j);
        let w = rows[0].len() as int;
        let l = d + w + 2;
        if x > 0 {
            assert(ops[1 + j * l] == body[j * l]);
        }
        if 2 * j + 2 < n {
            assert(ops[1 + j * l + d + w] == body[j * l + d + w]);
            assert(ops[1 + j * l + d + w + 1] == body[j * l + d + w + 1]);
        }
    }
}

/// The cells of one line.
fn line_ops(out: &mut Vec<BlockOp>, top: &Vec<Rgba8>, bottom: &Vec<Rgba8>, alone: bool, truecolor: bool)
    requires
        !alone ==> bottom@.len() == top@.len(),
    ensures
        final(out)@ == old(out)@ + line_cells(top@, bottom@, alone, truecolor),
{
    let ghost base = out@;
    let mut c: usize = 0;
    while c < top.len()
        invariant
            c <= top@.len(),
            !alone ==> bottom@.len() == top@.len(),
            out@ == base + line_cells(top@, bottom@, alone, truecolor).take(c as int),
        decreases top@.len() - c,
    {
        let t = get_half_color(top[c], truecolor);
        let op = if alone {
            write_character(t, None, true)
        } else {
            let b = get_half_color(bottom[c], truecolor);
            write_character(t, b, false)
        };
        out.push(op);
        proof {
            assert(line_cells(top@, bottom@, alone, truecolor).take(c + 1) =~= line_cells(top@, bottom@, alone, truecolor).take(
                c as int,
            ).push(op));
            assert(base + line_cells(top@, bottom@, alone, truecolor).take(c + 1) =~= (base + line_cells(
                top@,
                bottom@,
                alone,
                truecolor,
            ).take(c as int)).push(op));
        }
        c = c + 1;
    }
    proof {
        assert(line_cells(top@, bottom@, alone, truecolor).take(top@.len() as int) =~= line_cells(top@, bottom@, alone, truecolor));
    }
}

/// The rows of pixels a vector of rows holds.
pub open spec fn rows_view(rows: Seq<Vec<Rgba8>>) -> Seq<Seq<Rgba8>> {
    rows.map_values(|r: Vec<Rgba8>| r@)
}

/// The steps that print an image of `rows` with half blocks at column `x`,
/// row `y`, two rows of pixels to a line of cells.
pub fn block_ops(rows: &Vec<Vec<Rgba8>>, truecolor: bool, x: u16, y: u16) -> (r: Vec<BlockOp>)
    requires
        rectangular(rows_view(rows@)),
    ensures
        r@ == image_ops(rows_view(rows@), truecolor, x, y),
{
    let ghost all = rows_view(rows@);
    let mut out: Vec<BlockOp> = Vec::new();
    out.push(BlockOp::MoveTo(0, y));
    let empty: Vec<Rgba8> = Vec::new();
    let mut k: usize = 0;
    proof {
        assert(all.skip(0) =~= all);
        assert(out@ =~= seq![BlockOp::MoveTo(0, y)]);
    }
    while k < rows.len()
        invariant
            k <= rows@.len(),
            all == rows_view(rows@),
            rectangular(all),
            out@ + rows_ops(all.skip(k as int), truecolor, x) == seq![BlockOp::MoveTo(0, y)] + rows_ops(all, truecolor, x),
        decreases rows@.len() - k,
    {
        let ghost rest = all.skip(k as int);
        let ghost before = out@;
        if x > 0 {
            out.push(BlockOp::MoveRight(x));
        }
        proof {
            assert(out@ == before + indent(x));
        }
        if k + 1 < rows.len() {
            proof {
                assert(rows@[k as int]@ == all[k as int]);
                assert(rows@[k + 1]@ == all[k + 1]);
                assert(all[k as int].len() == all[0].len());
                assert(all[k + 1].len() == all[0].len());
                assert(rest[0] == all[k as int]);
                assert(rest[1] == all[k + 1]);
                assert(rest.skip(2) =~= all.skip(k + 2));
            }
            line_ops(&mut out, &rows[k], &rows[k + 1], false, truecolor);
            if k + 2 < rows.len() {
                out.push(BlockOp::Reset);
                out.push(BlockOp::NewLine);
                proof {
                    assert(out@ =~= before + indent(x) + line_cells(all[k as int], all[k + 1], false, truecolor) + seq![
                        BlockOp::Reset,
                        BlockOp::NewLine,
                    ]);
                }
            } else {
                proof {
                    assert(all.skip(k + 2) =~= Seq::<Seq<Rgba8>>::empty());
                }
            }
            k = k + 2;
        } else {
            proof {
                assert(rows@[k as int]@ == all[k as int]);
                assert(rest[0] == all[k as int]);
                assert(all.skip(k + 1) =~= Seq::<Seq<Rgba8>>::empty());
            }
            line_ops(&mut out, &rows[k], &empty, true, truecolor);
            k = k + 1;
        }
    }
    proof {
        assert(all.skip(k as int) =~= Seq::<Seq<Rgba8>>::empty());
        assert(out@ + Seq::<BlockOp>::empty() =~= out@);
    }
    out.push(BlockOp::Reset);
    out.push(BlockOp::FinalNewLine);
    proof {
        assert(out@ =~= seq![BlockOp::MoveTo(0, y)] + rows_ops(all, truecolor, x) + seq![BlockOp::Reset, BlockOp::FinalNewLine]);
    }
    out
}

} // verus!
