//! Wire format of an ASCII video frame, and the conversions between frames
//! and grids of cells.
//!
//! Layout: `[width: u16 LE][height: u16 LE][data_len: u32 LE][cells: N * 8 bytes]`,
//! each cell `[ch: u32 LE, has_color (0/1), r, g, b]`.
use vstd::prelude::*;

use crate::render::AsciiCell;

verus! {

broadcast use {vstd::utf8::char_is_scalar, vstd::utf8::char_u32_cast};

/// A single ASCII video frame transmitted over the network.
pub struct AsciiFrame {
    pub width: u16,
    pub height: u16,
    pub cells: Vec<CellData>,
}

/// Network cell: character (full unicode) + optional color.
#[derive(Debug, Clone, Copy, PartialEq, Eq)]
pub struct CellData {
    pub ch: char,
    pub color: Option<(u8, u8, u8)>,
}

/// Bytes per cell in wire format.
pub const CELL_BYTES: usize = 8;

/// Bytes of the frame header.
pub const HEADER_LEN: usize = 8;

/// Little-endian bytes of a `u16`.
pub open spec fn u16_le(v: u16) -> Seq<u8> {
    seq![(v % 256) as u8, (v / 256) as u8]
}

/// Little-endian bytes of a `u32`.
pub open spec fn u32_le(v: u32) -> Seq<u8> {
    seq![(v % 256) as u8, ((v / 256) % 256) as u8, ((v / 65536) % 256) as u8, (v / 16777216) as u8]
}

/// The `u16` whose little-endian bytes are `b0, b1`.
pub open spec fn u16_of(b0: u8, b1: u8) -> u16 {
    (b0 + 256 * b1) as u16
}

/// The `u32` whose little-endian bytes are `b0, b1, b2, b3`.
pub open spec fn u32_of(b0: u8, b1: u8, b2: u8, b3: u8) -> u32 {
    (b0 + 256 * b1 + 65536 * b2 + 16777216 * b3) as u32
}

/// Wire bytes of one cell.
pub open spec fn cell_bytes(c: AsciiCell) -> Seq<u8> {
    u32_le(c.ch as u32) + match c.color {
        Some((r, g, b)) => seq![1u8, r, g, b],
        None => seq![0u8, 0u8, 0u8, 0u8],
    }
}

/// Wire bytes of a sequence of cells, one after the other.
pub open spec fn cells_bytes(cs: Seq<AsciiCell>) -> Seq<u8>
    decreases cs.len(),
{
    if cs.len() == 0 {
        Seq::empty()
    } else {
        cells_bytes(cs.drop_last()) + cell_bytes(cs.last())
    }
}

/// The cells of a grid, row after row.
pub open spec fn flat(rows: Seq<Vec<AsciiCell>>) -> Seq<AsciiCell>
    decreases rows.len(),
{
    if rows.len() == 0 {
        Seq::empty()
    } else {
        flat(rows.drop_last()) + rows.last()@
    }
}

/// Width of a grid: the length of its first row (0 for an empty grid).
pub open spec fn grid_width(grid: Seq<Vec<AsciiCell>>) -> nat {
    if grid.len() == 0 {
        0
    } else {
        grid[0]@.len()
    }
}

/// The header width, height and data length of an encoded grid; the
/// dimensions are truncated to 16 bits and the data length to 32 bits.
pub open spec fn header_of(grid: Seq<Vec<AsciiCell>>) -> (u16, u16, u32) {
    let w = (grid_width(grid) % 65536) as u16;
    let h = (grid.len() % 65536) as u16;
    (w, h, ((w * h * 8) % 0x1_0000_0000) as u32)
}

/// The packet `encode_frame` produces for a grid.
pub open spec fn encoded_frame(grid: Seq<Vec<AsciiCell>>) -> Seq<u8> {
    let (w, h, len) = header_of(grid);
    u16_le(w) + u16_le(h) + u32_le(len) + cells_bytes(flat(grid))
}

/// The character a code point decodes to: itself when it is a Unicode
/// scalar value, a space otherwise.
pub open spec fn char_of(v: u32) -> char {
    if vstd::utf8::is_scalar(v) {
        v as char
    } else {
        ' '
    }
}

/// The cell stored at index `i` of the cell data `d`.
pub open spec fn cell_at(d: Seq<u8>, i: int) -> CellData {
    let o = 8 * i;
    CellData {
        ch: char_of(u32_of(d[o], d[o + 1], d[o + 2], d[o + 3])),
        color: if d[o + 4] != 0 {
            Some((d[o + 5], d[o + 6], d[o + 7]))
        } else {
            None
        },
    }
}

/// What `decode_frame` finds at the start of `buf`: width, height, cells and
/// the number of bytes the frame takes, or `None` when the frame is incomplete.
pub open spec fn decoded(buf: Seq<u8>) -> Option<(u16, u16, Seq<CellData>, nat)> {
    if buf.len() < 8 {
        None
    } else {
        let data_len = u32_of(buf[4], buf[5], buf[6], buf[7]) as nat;
        if buf.len() < 8 + data_len {
            None
        } else {
            let data = buf.subrange(8, 8 + data_len as int);
            Some(
                (
                    u16_of(buf[0], buf[1]),
                    u16_of(buf[2], buf[3]),
                    Seq::new(data_len / 8, |i: int| cell_at(data, i)),
                    8 + data_len,
                ),
            )
        }
    }
}

/// Pushes the little-endian bytes of `v`.
fn push_u16(out: &mut Vec<u8>, v: u16)
    ensures
        final(out)@ == old(out)@ + u16_le(v),
{
    out.push((v % 256) as u8);
    out.push((v / 256) as u8);
    assert(final(out)@ =~= old(out)@ + u16_le(v));
}

/// Pushes the little-endian bytes of `v`.
fn push_u32(out: &mut Vec<u8>, v: u32)
    ensures
        final(out)@ == old(out)@ + u32_le(v),
{
    out.push((v % 256) as u8);
    out.push(((v / 256) % 256) as u8);
    out.push(((v / 65536) % 256) as u8);
    out.push((v / 16777216) as u8);
    assert(final(out)@ =~= old(out)@ + u32_le(v));
}

proof fn lemma_flat_push(rows: Seq<Vec<AsciiCell>>, row: Vec<AsciiCell>)
    ensures
        flat(rows.push(row)) == flat(rows) + row@,
{
    assert(rows.push(row).drop_last() =~= rows);
}

proof fn lemma_cells_bytes_push(cs: Seq<AsciiCell>, c: AsciiCell)
    ensures
        cells_bytes(cs.push(c)) == cells_bytes(cs) + cell_bytes(c),
{
    assert(cs.push(c).drop_last() =~= cs);
}

/// Encode a rendered ASCII grid into a length-prefixed byte packet.
pub fn encode_frame(grid: &[Vec<AsciiCell>]) -> (out: Vec<u8>)
    ensures
        out@ == encoded_frame(grid@),
{
    let height = (grid.len() % 65536) as u16;
    let width: u16 = if grid.len() == 0 {
        0
    } else {
        (grid[0].len() % 65536) as u16
    };
    assert((width as u32) * (height as u32) <= 65535 * 65535) by (nonlinear_arith)
        requires
            width <= 65535,
            height <= 65535,
    ;
    let cell_count: u32 = (width as u32) * (height as u32);
    let data_len: u32 = cell_count.wrapping_mul(8);
    let mut out: Vec<u8> = Vec::new();
    push_u16(&mut out, width);
    push_u16(&mut out, height);
    push_u32(&mut out, data_len);
    let ghost header = out@;
    assert(header == u16_le(header_of(grid@).0) + u16_le(header_of(grid@).1) + u32_le(
        header_of(grid@).2,
    ));
    let mut i: usize = 0;
    while i < grid.len()
        invariant
            i <= grid@.len(),
            out@ == header + cells_bytes(flat(grid@.subrange(0, i as int))),
        decreases grid@.len() - i,
    {
        let row = &grid[i];
        let ghost before = flat(grid@.subrange(0, i as int));
        let mut j: usize = 0;
        while j < row.len()
            invariant
                j <= row@.len(),
                out@ == header + cells_bytes(before + row@.subrange(0, j as int)),
            decreases row@.len() - j,
        {
            let cell = row[j];
            let ghost done = before + row@.subrange(0, j as int);
            let v = cell.ch as u32;
            push_u32(&mut out, v);
            match cell.color {
                Some((r, g, b)) => {
                    out.push(1);
                    out.push(r);
                    out.push(g);
                    out.push(b);
                },
                None => {
                    out.push(0);
                    out.push(0);
                    out.push(0);
                    out.push(0);
                },
            }
            proof {
                lemma_cells_bytes_push(done, cell);
                assert(done.push(cell) =~= before + row@.subrange(0, j + 1));
                assert(out@ =~= header + cells_bytes(done) + cell_bytes(cell));
            }
            j = j + 1;
        }
        proof {
            assert(row@.subrange(0, row@.len() as int) =~= row@);
            lemma_flat_push(grid@.subrange(0, i as int), *row);
            assert(grid@.subrange(0, i as int).push(*row) =~= grid@.subrange(0, i + 1));
        }
        i = i + 1;
    }
    assert(grid@.subrange(0, grid@.len() as int) =~= grid@);
    out
}

/// Converts a code point into a `char`.
///
/// Calls `char::from_u32`, which, as its documentation states, returns `None`
/// exactly when the value is not a Unicode scalar value (above `0x10FFFF` or a
/// surrogate), and otherwise the `char` with that code point.
#[verifier::external_body]
fn char_from_u32(v: u32) -> (r: Option<char>)
    ensures
        r is Some <==> vstd::utf8::is_scalar(v),
        r matches Some(c) ==> c == v as char,
{
    char::from_u32(v)
}

/// Attempt to parse one frame from a byte buffer.
///
/// Returns `Some((frame, consumed_bytes))` if a complete frame is present,
/// or `None` if more data is needed.
pub fn decode_frame(buf: &[u8]) -> (r: Option<(AsciiFrame, usize)>)
    ensures
        match r {
            Some((f, n)) => decoded(buf@) == Some((f.width, f.height, f.cells@, n as nat)),
            None => decoded(buf@) is None,
        },
{
    if buf.len() < HEADER_LEN {
        return None;
    }
    let width: u16 = (buf[0] as u16) + (buf[1] as u16) * 256;
    let height: u16 = (buf[2] as u16) + (buf[3] as u16) * 256;
    let data_len: u32 = (buf[4] as u32) + (buf[5] as u32) * 256 + (buf[6] as u32) * 65536 + (
    buf[7] as u32) * 16777216;
    if buf.len() - HEADER_LEN < data_len as usize {
        return None;
    }
    let total: usize = HEADER_LEN + data_len as usize;
    let cell_count: usize = data_len as usize / CELL_BYTES;
    let ghost data = buf@.subrange(8, total as int);
    let mut cells: Vec<CellData> = Vec::new();
    let mut i: usize = 0;
    while i < cell_count
        invariant
            cell_count == data_len / 8,
            total == 8 + data_len,
            total <= buf@.len(),
            data == buf@.subrange(8, total as int),
            i <= cell_count,
            cells@ == Seq::new(i as nat, |k: int| cell_at(data, k)),
        decreases cell_count - i,
    {
        let o: usize = HEADER_LEN + i * CELL_BYTES;
        assert(o + 8 <= total);
        let v: u32 = (buf[o] as u32) + (buf[o + 1] as u32) * 256 + (buf[o + 2] as u32) * 65536 + (
        buf[o + 3] as u32) * 16777216;
        let ch = match char_from_u32(v) {
            Some(c) => c,
            None => ' ',
        };
        let color = if buf[o + 4] != 0 {
            Some((buf[o + 5], buf[o + 6], buf[o + 7]))
        } else {
            None
        };
        let cell = CellData { ch, color };
        proof {
            let d8 = 8 * i;
            assert(data[d8] == buf@[o as int]);
            assert(data[d8 + 1] == buf@[o + 1]);
            assert(data[d8 + 2] == buf@[o + 2]);
            assert(data[d8 + 3] == buf@[o + 3]);
            assert(data[d8 + 4] == buf@[o + 4]);
            assert(data[d8 + 5] == buf@[o + 5]);
            assert(data[d8 + 6] == buf@[o + 6]);
            assert(data[d8 + 7] == buf@[o + 7]);
            assert(cell == cell_at(data, i as int));
        }
        cells.push(cell);
        i = i + 1;
        assert(cells@ =~= Seq::new(i as nat, |k: int| cell_at(data, k)));
    }
    Some((AsciiFrame { width, height, cells }, total))
}

/// The grid cell at flat index `idx` of a frame's cells; a blank where the
/// frame holds fewer cells.
pub open spec fn grid_cell(cells: Seq<CellData>, idx: int) -> AsciiCell {
    if idx < cells.len() {
        AsciiCell { ch: cells[idx].ch, color: cells[idx].color }
    } else {
        AsciiCell { ch: ' ', color: None }
    }
}

/// Row `row` of the grid of a frame `w` cells wide.
pub open spec fn frame_row(cells: Seq<CellData>, w: nat, row: int) -> Seq<AsciiCell> {
    Seq::new(w, |col: int| grid_cell(cells, row * w + col))
}

/// Convert an AsciiFrame back to a 2D grid of AsciiCells.
pub fn frame_to_grid(frame: &AsciiFrame) -> (grid: Vec<Vec<AsciiCell>>)
    ensures
        frame.width == 0 || frame.height == 0 ==> grid@.len() == 0,
        frame.width != 0 && frame.height != 0 ==> {
            &&& grid@.len() == frame.height
            &&& forall|row: int|
                0 <= row < frame.height ==> #[trigger] grid@[row]@ == frame_row(
                    frame.cells@,
                    frame.width as nat,
                    row,
                )
        },
{
    let w = frame.width as usize;
    let h = frame.height as usize;
    if w == 0 || h == 0 {
        return Vec::new();
    }
    let mut grid: Vec<Vec<AsciiCell>> = Vec::new();
    let mut row: usize = 0;
    while row < h
        invariant
            w == frame.width,
            h == frame.height,
            row <= h,
            grid@.len() == row,
            forall|r: int| 0 <= r < row ==> #[trigger] grid@[r]@ == frame_row(frame.cells@, w as nat, r),
        decreases h - row,
    {
        assert(row * w + w <= 65535 * 65535) by (nonlinear_arith)
            requires
                row < h <= 65535,
                w <= 65535,
        ;
        let mut line: Vec<AsciiCell> = Vec::new();
        let mut col: usize = 0;
        while col < w
            invariant
                w == frame.width,
                row < h,
                row * w + w <= 65535 * 65535,
                col <= w,
                line@ == frame_row(frame.cells@, w as nat, row as int).subrange(0, col as int),
            decreases w - col,
        {
            let idx = row * w + col;
            if idx < frame.cells.len() {
                let cell = frame.cells[idx];
                line.push(AsciiCell { ch: cell.ch, color: cell.color });
            } else {
                line.push(AsciiCell { ch: ' ', color: None });
            }
            col = col + 1;
            assert(line@ =~= frame_row(frame.cells@, w as nat, row as int).subrange(0, col as int));
        }
        assert(line@ =~= frame_row(frame.cells@, w as nat, row as int));
        grid.push(line);
        row = row + 1;
    }
    grid
}

/// Nearest-neighbour source index for target index `i` when stretching `src`
/// entries over `target` entries: `i * src / target`, capped at the last entry.
pub open spec fn src_index(i: int, src: int, target: int) -> int {
    let s = (i * src) / target;
    if s < src - 1 {
        s
    } else {
        src - 1
    }
}

/// Whether a grid rescale would produce no rows.
pub open spec fn rescale_is_empty(grid: Seq<Vec<AsciiCell>>, target_cols: int, target_rows: int) -> bool {
    grid.len() == 0 || target_cols == 0 || target_rows == 0 || grid[0]@.len() == 0
}

/// Every sampled source row is long enough for every sampled column.
pub open spec fn rescale_in_bounds(grid: Seq<Vec<AsciiCell>>, target_cols: int, target_rows: int) -> bool {
    forall|r: int, c: int|
        #![trigger src_index(r, grid.len() as int, target_rows), src_index(c, grid[0]@.len() as int, target_cols)]
        0 <= r < target_rows && 0 <= c < target_cols ==> src_index(c, grid[0]@.len() as int, target_cols)
            < grid[src_index(r, grid.len() as int, target_rows)]@.len()
}

/// Row `row` of the rescaled grid.
pub open spec fn rescaled_row(grid: Seq<Vec<AsciiCell>>, target_cols: int, target_rows: int, row: int) -> Seq<
    AsciiCell,
> {
    let src_row = grid[src_index(row, grid.len() as int, target_rows)]@;
    Seq::new(
        target_cols as nat,
        |col: int| src_row[src_index(col, grid[0]@.len() as int, target_cols)],
    )
}

/// The whole rescaled grid, as `rescale_grid` returns it.
pub open spec fn rescaled(grid: Seq<Vec<AsciiCell>>, target_cols: int, target_rows: int) -> Seq<
    Seq<AsciiCell>,
> {
    if rescale_is_empty(grid, target_cols, target_rows) {
        Seq::empty()
    } else {
        Seq::new(target_rows as nat, |row: int| rescaled_row(grid, target_cols, target_rows, row))
    }
}

/// What `rescale_grid` needs of its arguments to run.
pub open spec fn rescale_allowed(grid: Seq<Vec<AsciiCell>>, target_cols: int, target_rows: int) -> bool {
    !rescale_is_empty(grid, target_cols, target_rows) ==> {
        &&& (target_rows - 1) * grid.len() <= usize::MAX
        &&& (target_cols - 1) * grid[0]@.len() <= usize::MAX
        &&& rescale_in_bounds(grid, target_cols, target_rows)
    }
}

proof fn lemma_src_index(i: int, src: int, target: int)
    requires
        0 <= i < target,
        src >= 1,
    ensures
        0 <= src_index(i, src, target) < src,
        0 <= i * src,
{
    assert(0 <= i * src) by (nonlinear_arith)
        requires
            0 <= i,
            src >= 1,
    ;
    assert((i * src) / target >= 0) by (nonlinear_arith)
        requires
            0 <= i * src,
            target > 0,
    ;
}

/// Rescale a grid to fit target dimensions using nearest-neighbor sampling.
/// Stretches or shrinks both axes independently to fill (target_cols × target_rows).
pub fn rescale_grid(grid: &[Vec<AsciiCell>], target_cols: usize, target_rows: usize) -> (result: Vec<
    Vec<AsciiCell>,
>)
    requires
        rescale_allowed(grid@, target_cols as int, target_rows as int),
    ensures
        result@.map_values(|r: Vec<AsciiCell>| r@) == rescaled(grid@, target_cols as int, target_rows as int),
        rescale_is_empty(grid@, target_cols as int, target_rows as int) ==> result@.len() == 0,
        !rescale_is_empty(grid@, target_cols as int, target_rows as int) ==> {
            &&& result@.len() == target_rows
            &&& forall|row: int|
                0 <= row < target_rows ==> #[trigger] result@[row]@ == rescaled_row(
                    grid@,
                    target_cols as int,
                    target_rows as int,
                    row,
                )
        },
{
    if grid.len() == 0 || target_cols == 0 || target_rows == 0 {
        let r: Vec<Vec<AsciiCell>> = Vec::new();
        assert(r@.map_values(|r: Vec<AsciiCell>| r@) =~= Seq::<Seq<AsciiCell>>::empty());
        return r;
    }
    let src_h = grid.len();
    let src_w = grid[0].len();
    if src_w == 0 {
        let r: Vec<Vec<AsciiCell>> = Vec::new();
        assert(r@.map_values(|r: Vec<AsciiCell>| r@) =~= Seq::<Seq<AsciiCell>>::empty());
        return r;
    }
    let mut result: Vec<Vec<AsciiCell>> = Vec::new();
    let mut row: usize = 0;
    while row < target_rows
        invariant
            src_h == grid@.len(),
            src_w == grid@[0]@.len(),
            src_h >= 1,
            src_w >= 1,
            target_cols >= 1,
            (target_rows - 1) * src_h <= usize::MAX,
            (target_cols - 1) * src_w <= usize::MAX,
            rescale_in_bounds(grid@, target_cols as int, target_rows as int),
            row <= target_rows,
            result@.len() == row,
            forall|r: int|
                0 <= r < row ==> #[trigger] result@[r]@ == rescaled_row(
                    grid@,
                    target_cols as int,
                    target_rows as int,
                    r,
                ),
        decreases target_rows - row,
    {
        assert(row * src_h <= (target_rows - 1) * src_h) by (nonlinear_arith)
            requires
                row <= target_rows - 1,
                src_h >= 0,
        ;
        proof {
            lemma_src_index(row as int, src_h as int, target_rows as int);
        }
        let sr = (row * src_h) / target_rows;
        let src_row = if sr < src_h - 1 {
            sr
        } else {
            src_h - 1
        };
        assert(src_row == src_index(row as int, src_h as int, target_rows as int));
        let source = &grid[src_row];
        let mut line: Vec<AsciiCell> = Vec::new();
        let mut col: usize = 0;
        while col < target_cols
            invariant
                src_h == grid@.len(),
                src_w == grid@[0]@.len(),
                src_w >= 1,
                (target_cols - 1) * src_w <= usize::MAX,
                rescale_in_bounds(grid@, target_cols as int, target_rows as int),
                row < target_rows,
                src_row == src_index(row as int, src_h as int, target_rows as int),
                *source == grid@[src_row as int],
                col <= target_cols,
                line@ == rescaled_row(grid@, target_cols as int, target_rows as int, row as int).subrange(
                    0,
                    col as int,
                ),
            decreases target_cols - col,
        {
            assert(col * src_w <= (target_cols - 1) * src_w) by (nonlinear_arith)
                requires
                    col <= target_cols - 1,
                    src_w >= 0,
            ;
            proof {
                lemma_src_index(col as int, src_w as int, target_cols as int);
            }
            let sc = (col * src_w) / target_cols;
            let src_col = if sc < src_w - 1 {
                sc
            } else {
                src_w - 1
            };
            assert(src_col == src_index(col as int, src_w as int, target_cols as int));
            assert(src_col < source@.len());
            line.push(source[src_col]);
            col = col + 1;
            assert(line@ =~= rescaled_row(grid@, target_cols as int, target_rows as int, row as int).subrange(
                0,
                col as int,
            ));
        }
        assert(line@ =~= rescaled_row(grid@, target_cols as int, target_rows as int, row as int));
        result.push(line);
        row = row + 1;
    }
    assert(result@.map_values(|r: Vec<AsciiCell>| r@) =~= rescaled(grid@, target_cols as int, target_rows as int));
    result
}

/// The network cell carrying the same character and color as a grid cell.
pub open spec fn cell_data_of(c: AsciiCell) -> CellData {
    CellData { ch: c.ch, color: c.color }
}

/// All rows of the grid are as long as the first one.
pub open spec fn rectangular(grid: Seq<Vec<AsciiCell>>) -> bool {
    forall|i: int| 0 <= i < grid.len() ==> #[trigger] grid[i]@.len() == grid_width(grid)
}

/// The grid's width, height and data length fit the header fields unchanged.
pub open spec fn fits_header(grid: Seq<Vec<AsciiCell>>) -> bool {
    &&& grid.len() < 65536
    &&& grid_width(grid) < 65536
    &&& grid.len() * grid_width(grid) * 8 < 0x1_0000_0000
}

proof fn lemma_u16_roundtrip(v: u16)
    ensures
        u16_of(u16_le(v)[0], u16_le(v)[1]) == v,
{
    assert(v % 256 + 256 * (v / 256) == v) by (nonlinear_arith);
}

proof fn lemma_u32_roundtrip(v: u32)
    ensures
        u32_of(u32_le(v)[0], u32_le(v)[1], u32_le(v)[2], u32_le(v)[3]) == v,
{
    assert((v % 256) + 256 * ((v / 256) % 256) + 65536 * ((v / 65536) % 256) + 16777216 * (v
        / 16777216) == v) by (bit_vector);
}

proof fn lemma_cells_bytes(cs: Seq<AsciiCell>)
    ensures
        cells_bytes(cs).len() == 8 * cs.len(),
        forall|i: int|
            0 <= i < cs.len() ==> #[trigger] cell_at(cells_bytes(cs), i) == cell_data_of(cs[i]),
    decreases cs.len(),
{
    if cs.len() > 0 {
        let init = cs.drop_last();
        lemma_cells_bytes(init);
        let b = cells_bytes(cs);
        assert forall|i: int| 0 <= i < cs.len() implies #[trigger] cell_at(b, i) == cell_data_of(cs[i]) by {
            if i < init.len() {
                assert(cell_at(cells_bytes(init), i) == cell_data_of(init[i]));
                let o = 8 * i;
                assert(b[o] == cells_bytes(init)[o]);
                assert(b[o + 1] == cells_bytes(init)[o + 1]);
                assert(b[o + 2] == cells_bytes(init)[o + 2]);
                assert(b[o + 3] == cells_bytes(init)[o + 3]);
                assert(b[o + 4] == cells_bytes(init)[o + 4]);
                assert(b[o + 5] == cells_bytes(init)[o + 5]);
                assert(b[o + 6] == cells_bytes(init)[o + 6]);
                assert(b[o + 7] == cells_bytes(init)[o + 7]);
            } else {
                let c = cs.last();
                let o = 8 * i;
                let cb = cell_bytes(c);
                assert(b[o] == cb[0]);
                assert(b[o + 1] == cb[1]);
                assert(b[o + 2] == cb[2]);
                assert(b[o + 3] == cb[3]);
                assert(b[o + 4] == cb[4]);
                assert(b[o + 5] == cb[5]);
                assert(b[o + 6] == cb[6]);
                assert(b[o + 7] == cb[7]);
                lemma_u32_roundtrip(c.ch as u32);
            }
        }
    }
}

proof fn lemma_flat(grid: Seq<Vec<AsciiCell>>, w: nat)
    requires
        forall|i: int| 0 <= i < grid.len() ==> #[trigger] grid[i]@.len() == w,
    ensures
        flat(grid).len() == grid.len() * w,
        forall|r: int, c: int|
            0 <= r < grid.len() && 0 <= c < w ==> flat(grid)[r * w + c] == #[trigger] grid[r]@[c],
    decreases grid.len(),
{
    if grid.len() > 0 {
        let init = grid.drop_last();
        assert forall|i: int| 0 <= i < init.len() implies #[trigger] init[i]@.len() == w by {
            assert(init[i] == grid[i]);
        }
        lemma_flat(init, w);
        let n = init.len();
        assert(flat(grid).len() == grid.len() * w) by (nonlinear_arith)
            requires
                flat(grid).len() == n * w + w,
                grid.len() == n + 1,
        ;
        assert forall|r: int, c: int| 0 <= r < grid.len() && 0 <= c < w implies flat(grid)[r * w + c]
            == #[trigger] grid[r]@[c] by {
            if r < n {
                assert(r * w + c < n * w) by (nonlinear_arith)
                    requires
                        r < n,
                        0 <= c < w,
                ;
                assert(init[r] == grid[r]);
            } else {
                assert(r * w == n * w);
            }
        }
    }
}

/// Decoding an encoded grid gives back its width, its height and all its
/// cells in row order, and consumes exactly the whole packet; this holds for
/// every rectangular grid whose sizes fit the header fields.
pub proof fn lemma_encode_decode(grid: Seq<Vec<AsciiCell>>)
    requires
        rectangular(grid),
        fits_header(grid),
    ensures
        encoded_frame(grid).len() == 8 + 8 * grid.len() * grid_width(grid),
        decoded(encoded_frame(grid)) == Some(
            (
                grid_width(grid) as u16,
                grid.len() as u16,
                flat(grid).map_values(|c: AsciiCell| cell_data_of(c)),
                encoded_frame(grid).len(),
            ),
        ),
{
    let w = grid_width(grid);
    let h = grid.len();
    lemma_flat(grid, w);
    let cs = flat(grid);
    lemma_cells_bytes(cs);
    let (hw, hh, hl) = header_of(grid);
    assert(hw == w && hh == h);
    assert(hl == 8 * h * w) by (nonlinear_arith)
        requires
            hl == ((hw * hh * 8) % 0x1_0000_0000) as u32,
            hw == w,
            hh == h,
            h * w * 8 < 0x1_0000_0000,
    ;
    let e = encoded_frame(grid);
    assert(cs.len() == h * w);
    lemma_u16_roundtrip(hw);
    lemma_u16_roundtrip(hh);
    lemma_u32_roundtrip(hl);
    assert(e[0] == u16_le(hw)[0] && e[1] == u16_le(hw)[1]);
    assert(e[2] == u16_le(hh)[0] && e[3] == u16_le(hh)[1]);
    assert(e[4] == u32_le(hl)[0] && e[5] == u32_le(hl)[1] && e[6] == u32_le(hl)[2] && e[7] == u32_le(hl)[3]);
    let head = u16_le(hw) + u16_le(hh) + u32_le(hl);
    assert(e == head + cells_bytes(cs));
    assert(head.len() == 8);
    assert(hl as int == 8 * cs.len()) by (nonlinear_arith)
        requires
            hl == 8 * h * w,
            cs.len() == h * w,
    ;
    let data = e.subrange(8, 8 + hl as int);
    assert(data =~= cells_bytes(cs));
    assert((8 * cs.len()) / 8 == cs.len()) by (nonlinear_arith);
    assert(Seq::new((hl as nat) / 8, |i: int| cell_at(data, i)) =~= cs.map_values(
        |c: AsciiCell| cell_data_of(c),
    ));
}

/// Turning the frame decoded from an encoded grid back into a grid gives the
/// encoded grid, row by row, for every non-empty rectangular grid whose
/// sizes fit the header fields.
pub proof fn lemma_grid_roundtrip(grid: Seq<Vec<AsciiCell>>)
    requires
        rectangular(grid),
        fits_header(grid),
        grid.len() >= 1,
        grid_width(grid) >= 1,
    ensures
        decoded(encoded_frame(grid)) matches Some((w, h, cells, _)) && w as nat == grid_width(grid) && h
            as nat == grid.len() && forall|row: int|
            0 <= row < h ==> #[trigger] frame_row(cells, w as nat, row) == grid[row]@,
{
    lemma_encode_decode(grid);
    let w = grid_width(grid);
    lemma_flat(grid, w);
    let cells = flat(grid).map_values(|c: AsciiCell| cell_data_of(c));
    assert forall|row: int| 0 <= row < grid.len() implies #[trigger] frame_row(cells, w, row)
        == grid[row]@ by {
        assert forall|col: int| 0 <= col < w implies frame_row(cells, w, row)[col] == grid[row]@[col] by {
            assert(row * w + col < grid.len() * w) by (nonlinear_arith)
                requires
                    0 <= row < grid.len(),
                    0 <= col < w,
            ;
            assert(0 <= row * w + col) by (nonlinear_arith)
                requires
                    0 <= row,
                    0 <= col,
            ;
            assert(flat(grid)[row * w + col] == grid[row]@[col]);
        }
        assert(frame_row(cells, w, row) =~= grid[row]@);
    }
}

/// A frame is reported only once all its bytes are present: every strict
/// prefix of a complete frame decodes to `None`, and bytes after a complete
/// frame do not change what decodes.
pub proof fn lemma_decode_prefix(buf: Seq<u8>, extra: Seq<u8>)
    requires
        decoded(buf) is Some,
    ensures
        forall|k: int| 0 <= k < decoded(buf).unwrap().3 ==> (#[trigger] decoded(buf.take(k))) is None,
        decoded(buf + extra) == decoded(buf),
{
    let n = decoded(buf).unwrap().3;
    assert forall|k: int| 0 <= k < n implies (#[trigger] decoded(buf.take(k))) is None by {
        let p = buf.take(k);
        if p.len() >= 8 {
            assert(p[4] == buf[4] && p[5] == buf[5] && p[6] == buf[6] && p[7] == buf[7]);
        }
    }
    let b2 = buf + extra;
    assert(b2[0] == buf[0] && b2[1] == buf[1] && b2[2] == buf[2] && b2[3] == buf[3]);
    assert(b2[4] == buf[4] && b2[5] == buf[5] && b2[6] == buf[6] && b2[7] == buf[7]);
    let data_len = u32_of(buf[4], buf[5], buf[6], buf[7]) as int;
    assert(b2.subrange(8, 8 + data_len) =~= buf.subrange(8, 8 + data_len));
}


/// Whether `cell` is one of the cells of `grid`.
pub open spec fn cell_of_grid(grid: Seq<Vec<AsciiCell>>, cell: AsciiCell) -> bool {
    exists|sr: int, sc: int| 0 <= sr < grid.len() && 0 <= sc < grid[sr]@.len() && grid[sr]@[sc] == cell
}

/// Rescaling only copies cells of the source grid: every cell of the result
/// is a cell of the source, and a grid of one repeated cell rescales to a
/// grid of that cell; the result has the requested size unless a side is empty.
pub proof fn lemma_rescale_copies_cells(grid: Seq<Vec<AsciiCell>>, target_cols: int, target_rows: int, fill: AsciiCell)
    requires
        rescale_allowed(grid, target_cols, target_rows),
        target_cols >= 0,
        target_rows >= 0,
    ensures
        !rescale_is_empty(grid, target_cols, target_rows) ==> {
            &&& rescaled(grid, target_cols, target_rows).len() == target_rows
            &&& forall|r: int|
                0 <= r < target_rows ==> #[trigger] rescaled(grid, target_cols, target_rows)[r].len() == target_cols
            &&& forall|r: int, c: int|
                0 <= r < target_rows && 0 <= c < target_cols ==> cell_of_grid(
                    grid,
                    #[trigger] rescaled(grid, target_cols, target_rows)[r][c],
                )
        },
        (forall|r: int, c: int| 0 <= r < grid.len() && 0 <= c < grid[r]@.len() ==> #[trigger] grid[r]@[c] == fill)
            ==> forall|r: int, c: int|
            0 <= r < rescaled(grid, target_cols, target_rows).len() && 0 <= c < rescaled(
                grid,
                target_cols,
                target_rows,
            )[r].len() ==> #[trigger] rescaled(grid, target_cols, target_rows)[r][c] == fill,
{
    if !rescale_is_empty(grid, target_cols, target_rows) {
        let g = rescaled(grid, target_cols, target_rows);
        assert(g.len() == target_rows);
        assert forall|r: int| 0 <= r < target_rows implies #[trigger] g[r].len() == target_cols by {
            assert(g[r] == rescaled_row(grid, target_cols, target_rows, r));
        }
        assert forall|r: int, c: int| 0 <= r < target_rows && 0 <= c < target_cols implies cell_of_grid(
            grid,
            #[trigger] g[r][c],
        ) by {
            let sr = src_index(r, grid.len() as int, target_rows);
            let sc = src_index(c, grid[0]@.len() as int, target_cols);
            lemma_src_index(r, grid.len() as int, target_rows);
            lemma_src_index(c, grid[0]@.len() as int, target_cols);
            assert(sc < grid[sr]@.len());
            assert(g[r][c] == grid[sr]@[sc]);
        }
        assert forall|r: int, c: int| 0 <= r < g.len() && 0 <= c < g[r].len() && (forall|r2: int, c2: int|
            0 <= r2 < grid.len() && 0 <= c2 < grid[r2]@.len() ==> #[trigger] grid[r2]@[c2] == fill) implies #[trigger] g[r][c]
            == fill by {
            let sr = src_index(r, grid.len() as int, target_rows);
            let sc = src_index(c, grid[0]@.len() as int, target_cols);
            lemma_src_index(r, grid.len() as int, target_rows);
            lemma_src_index(c, grid[0]@.len() as int, target_cols);
            assert(sc < grid[sr]@.len());
            assert(g[r][c] == grid[sr]@[sc]);
        }
    }
}

/// `j` is the nearest-neighbour sample for position `i` of `target` when
/// `src` entries are spread over `target`: `j / src <= i / target < (j + 1) / src`.
proof fn lemma_sample_index(i: int, j: int, src: int, target: int)
    requires
        0 <= i < target,
        src >= 1,
        j * target <= i * src < (j + 1) * target,
    ensures
        src_index(i, src, target) == j,
        0 <= j < src,
{
    assert((i * src) / target == j) by (nonlinear_arith)
        requires
            j * target <= i * src < (j + 1) * target,
            target > 0,
    ;
    assert(i * src < target * src) by (nonlinear_arith)
        requires
            0 <= i < target,
            src >= 1,
    ;
    assert(0 <= j < src) by (nonlinear_arith)
        requires
            j * target <= i * src < (j + 1) * target,
            0 <= i * src < target * src,
            target > 0,
    ;
}

/// Nearest-neighbour rescaling samples the whole source evenly, on both axes,
/// shrinking as well as stretching: cell (r, c) of a grid rescaled from
/// `w` × `h` to `target_cols` × `target_rows` is the source cell (i, j) for the
/// row `i` with `i / h <= r / target_rows < (i + 1) / h` and the column `j`
/// with `j / w <= c / target_cols < (j + 1) / w` (so `j` is `c * w / target_cols`
/// rounded down, and the last result column comes from the last stretch of
/// the source); the result has the requested size.
pub proof fn lemma_rescale_samples(
    grid: Seq<Vec<AsciiCell>>,
    target_cols: int,
    target_rows: int,
    r: int,
    c: int,
    i: int,
    j: int,
)
    requires
        grid.len() >= 1,
        grid[0]@.len() >= 1,
        target_cols >= 1,
        target_rows >= 1,
    ensures
        rescaled(grid, target_cols, target_rows).len() == target_rows,
        0 <= r < target_rows ==> rescaled(grid, target_cols, target_rows)[r].len() == target_cols,
        ({
            let h = grid.len() as int;
            let w = grid[0]@.len() as int;
            (0 <= r < target_rows && 0 <= c < target_cols && i * target_rows <= r * h < (i + 1)
                * target_rows && j * target_cols <= c * w < (j + 1) * target_cols) ==> {
                &&& 0 <= i < h
                &&& 0 <= j < w
                &&& rescaled(grid, target_cols, target_rows)[r][c] == grid[i]@[j]
            }
        }),
{
    let h = grid.len() as int;
    let w = grid[0]@.len() as int;
    let g = rescaled(grid, target_cols, target_rows);
    if 0 <= r < target_rows {
        assert(g[r] == rescaled_row(grid, target_cols, target_rows, r));
    }
    if 0 <= r < target_rows && 0 <= c < target_cols && i * target_rows <= r * h < (i + 1) * target_rows
        && j * target_cols <= c * w < (j + 1) * target_cols {
        lemma_sample_index(r, i, h, target_rows);
        lemma_sample_index(c, j, w, target_cols);
        assert(g[r][c] == grid[i]@[j]);
    }
}

proof fn lemma_src_index_same(i: int, n: int)
    requires
        0 <= i < n,
    ensures
        src_index(i, n, n) == i,
{
    assert((i * n) / n == i) by (nonlinear_arith)
        requires
            0 <= i < n,
    ;
}

/// Rescaling a rectangular grid to its own width and height gives it back,
/// cell for cell (every sampled cell is in bounds).
pub proof fn lemma_rescale_same_size(grid: Seq<Vec<AsciiCell>>)
    requires
        rectangular(grid),
        grid.len() >= 1,
        grid_width(grid) >= 1,
    ensures
        rescale_in_bounds(grid, grid_width(grid) as int, grid.len() as int),
        rescaled(grid, grid_width(grid) as int, grid.len() as int) == grid.map_values(
            |r: Vec<AsciiCell>| r@,
        ),
{
    let w = grid_width(grid) as int;
    let h = grid.len() as int;
    assert forall|r: int, c: int| 0 <= r < h && 0 <= c < w implies #[trigger] src_index(r, h, h) == r
        && #[trigger] src_index(c, w, w) == c by {
        lemma_src_index_same(r, h);
        lemma_src_index_same(c, w);
    }
    assert forall|r: int, c: int|
        #![trigger src_index(r, grid.len() as int, h), src_index(c, grid[0]@.len() as int, w)]
        0 <= r < h && 0 <= c < w implies src_index(c, grid[0]@.len() as int, w) < grid[src_index(
        r,
        grid.len() as int,
        h,
    )]@.len() by {
        lemma_src_index_same(r, h);
        lemma_src_index_same(c, w);
        assert(grid[r]@.len() == w);
    }
    let g = rescaled(grid, w, h);
    assert forall|r: int| 0 <= r < h implies #[trigger] g[r] == grid[r]@ by {
        lemma_src_index_same(r, h);
        assert(grid[r]@.len() == w);
        assert forall|c: int| 0 <= c < w implies g[r][c] == grid[r]@[c] by {
            lemma_src_index_same(c, w);
        }
        assert(g[r] =~= grid[r]@);
    }
    assert(g =~= grid.map_values(|r: Vec<AsciiCell>| r@));
}

} // verus!
