//! Exporting a rendered grid: plain text, ANSI-colored text, HTML, the
//! picture-in-picture composite, and the calendar arithmetic behind the
//! timestamps used in file names.
use vstd::prelude::*;

use crate::net::protocol::{rescale_allowed, rescale_grid, rescaled};
use crate::render::AsciiCell;
use crate::text::{
    chars_of, decimal, decimal_padded, digit_char, ends_with, has_suffix, push_char, push_decimal,
    push_decimal_padded,
};

verus! {

/// The characters of a row.
pub open spec fn row_text(row: Seq<AsciiCell>) -> Seq<char> {
    row.map_values(|c: AsciiCell| c.ch)
}

/// Rows rendered by `f`, joined by newlines.
pub open spec fn joined_rows(rows: Seq<Seq<char>>) -> Seq<char>
    decreases rows.len(),
{
    if rows.len() == 0 {
        Seq::empty()
    } else if rows.len() == 1 {
        rows[0]
    } else {
        joined_rows(rows.drop_last()) + seq!['\n'] + rows.last()
    }
}

/// Plain text of a grid: each row's characters, rows separated by newlines.
pub open spec fn grid_text(grid: Seq<Vec<AsciiCell>>) -> Seq<char> {
    joined_rows(grid.map_values(|r: Vec<AsciiCell>| row_text(r@)))
}

proof fn lemma_joined_push(rows: Seq<Seq<char>>, r: Seq<char>)
    ensures
        joined_rows(rows.push(r)) == if rows.len() == 0 {
            r
        } else {
            joined_rows(rows) + seq!['\n'] + r
        },
{
    assert(rows.push(r).drop_last() =~= rows);
}

/// Convert grid to plain text (chars only, newline-separated rows).
pub fn grid_to_text(grid: &[Vec<AsciiCell>]) -> (out: String)
    ensures
        out@ == grid_text(grid@),
{
    let mut out = String::new();
    let mut i: usize = 0;
    while i < grid.len()
        invariant
            i <= grid@.len(),
            out@ == grid_text(grid@.subrange(0, i as int)),
        decreases grid@.len() - i,
    {
        let ghost before = out@;
        if i > 0 {
            push_char(&mut out, '\n');
        }
        let row = &grid[i];
        let ghost mid = out@;
        let mut j: usize = 0;
        while j < row.len()
            invariant
                j <= row@.len(),
                out@ == mid + row_text(row@.subrange(0, j as int)),
            decreases row@.len() - j,
        {
            push_char(&mut out, row[j].ch);
            j = j + 1;
            assert(out@ =~= mid + row_text(row@.subrange(0, j as int)));
        }
        proof {
            assert(row@.subrange(0, row@.len() as int) =~= row@);
            let rows = grid@.subrange(0, i as int).map_values(|r: Vec<AsciiCell>| row_text(r@));
            lemma_joined_push(rows, row_text(row@));
            assert(grid@.subrange(0, i + 1).map_values(|r: Vec<AsciiCell>| row_text(r@)) =~= rows.push(
                row_text(row@),
            ));
        }
        i = i + 1;
    }
    assert(grid@.subrange(0, grid@.len() as int) =~= grid@);
    out
}

/// Output flavor of a colored export.
#[derive(Debug, Clone, Copy, PartialEq, Eq, Structural)]
pub enum Markup {
    Ansi,
    Html,
}

/// Text that switches the color on.
pub open spec fn color_open(m: Markup, rgb: (u8, u8, u8)) -> Seq<char> {
    match m {
        Markup::Ansi => "\x1b[38;2;"@ + decimal(rgb.0 as nat) + seq![';'] + decimal(rgb.1 as nat) + seq![
            ';',
        ] + decimal(rgb.2 as nat) + seq!['m'],
        Markup::Html => "<span style=\"color:rgb("@ + decimal(rgb.0 as nat) + seq![','] + decimal(
            rgb.1 as nat,
        ) + seq![','] + decimal(rgb.2 as nat) + ")\">"@,
    }
}

/// Text that switches the color off.
pub open spec fn color_close(m: Markup) -> Seq<char> {
    match m {
        Markup::Ansi => "\x1b[0m"@,
        Markup::Html => "</span>"@,
    }
}

/// Text of one character: HTML escapes `<`, `>`, `&` and `"`.
pub open spec fn char_text(m: Markup, c: char) -> Seq<char> {
    match m {
        Markup::Ansi => seq![c],
        Markup::Html => if c == '<' {
            "&lt;"@
        } else if c == '>' {
            "&gt;"@
        } else if c == '&' {
            "&amp;"@
        } else if c == '"' {
            "&quot;"@
        } else {
            seq![c]
        },
    }
}

/// Text emitted before a cell, and the color in effect after it: a new color
/// closes the previous one (if any) and opens itself; an uncolored cell after
/// a colored one closes the color; otherwise nothing.
pub open spec fn color_step(m: Markup, cell: Option<(u8, u8, u8)>, cur: Option<(u8, u8, u8)>) -> (
    Seq<char>,
    Option<(u8, u8, u8)>,
) {
    match cell {
        Some(rgb) => if cur != Some(rgb) {
            (
                (if cur is Some {
                    color_close(m)
                } else {
                    Seq::empty()
                }) + color_open(m, rgb),
                Some(rgb),
            )
        } else {
            (Seq::empty(), cur)
        },
        None => if cur is Some {
            (color_close(m), None)
        } else {
            (Seq::empty(), cur)
        },
    }
}

/// Markup of the cells `cells` when color `cur` is in effect before them; the
/// color still open at the end of the row is closed.
pub open spec fn colored_run(m: Markup, cells: Seq<AsciiCell>, cur: Option<(u8, u8, u8)>) -> Seq<char>
    decreases cells.len(),
{
    if cells.len() == 0 {
        if cur is Some {
            color_close(m)
        } else {
            Seq::empty()
        }
    } else {
        let (pre, next) = color_step(m, cells[0].color, cur);
        pre + char_text(m, cells[0].ch) + colored_run(m, cells.drop_first(), next)
    }
}

/// Markup of a whole row, starting with no color.
pub open spec fn colored_row(m: Markup, row: Seq<AsciiCell>) -> Seq<char> {
    colored_run(m, row, None)
}

/// Markup of a grid: rows joined by newlines.
pub open spec fn colored_grid(m: Markup, grid: Seq<Vec<AsciiCell>>) -> Seq<char> {
    joined_rows(grid.map_values(|r: Vec<AsciiCell>| colored_row(m, r@)))
}

fn same_color(a: Option<(u8, u8, u8)>, b: Option<(u8, u8, u8)>) -> (r: bool)
    ensures
        r == (a == b),
{
    match (a, b) {
        (Some(x), Some(y)) => x.0 == y.0 && x.1 == y.1 && x.2 == y.2,
        (None, None) => true,
        _ => false,
    }
}

fn push_color_open(out: &mut String, m: Markup, rgb: (u8, u8, u8))
    ensures
        final(out)@ == old(out)@ + color_open(m, rgb),
{
    match m {
        Markup::Ansi => {
            out.append("\x1b[38;2;");
            push_decimal(out, rgb.0 as u64);
            push_char(out, ';');
            push_decimal(out, rgb.1 as u64);
            push_char(out, ';');
            push_decimal(out, rgb.2 as u64);
            push_char(out, 'm');
        },
        Markup::Html => {
            out.append("<span style=\"color:rgb(");
            push_decimal(out, rgb.0 as u64);
            push_char(out, ',');
            push_decimal(out, rgb.1 as u64);
            push_char(out, ',');
            push_decimal(out, rgb.2 as u64);
            out.append(")\">");
        },
    }
    assert(final(out)@ =~= old(out)@ + color_open(m, rgb));
}

fn push_color_close(out: &mut String, m: Markup)
    ensures
        final(out)@ == old(out)@ + color_close(m),
{
    match m {
        Markup::Ansi => out.append("\x1b[0m"),
        Markup::Html => out.append("</span>"),
    }
}

fn push_char_text(out: &mut String, m: Markup, c: char)
    ensures
        final(out)@ == old(out)@ + char_text(m, c),
{
    match m {
        Markup::Ansi => push_char(out, c),
        Markup::Html => {
            if c == '<' {
                out.append("&lt;");
            } else if c == '>' {
                out.append("&gt;");
            } else if c == '&' {
                out.append("&amp;");
            } else if c == '"' {
                out.append("&quot;");
            } else {
                push_char(out, c);
            }
        },
    }
    assert(final(out)@ =~= old(out)@ + char_text(m, c));
}

/// Appends the markup of one row.
fn push_colored_row(out: &mut String, m: Markup, row: &[AsciiCell])
    ensures
        final(out)@ == old(out)@ + colored_row(m, row@),
{
    let ghost start = old(out)@;
    let mut cur: Option<(u8, u8, u8)> = None;
    let mut j: usize = 0;
    assert(row@.skip(0) =~= row@);
    while j < row.len()
        invariant
            j <= row@.len(),
            out@ + colored_run(m, row@.skip(j as int), cur) == start + colored_row(m, row@),
        decreases row@.len() - j,
    {
        let cell = row[j];
        let ghost rest = row@.skip(j as int);
        let ghost before = out@;
        let ghost old_cur = cur;
        proof {
            assert(rest[0] == cell);
            assert(rest.drop_first() =~= row@.skip(j + 1));
        }
        match cell.color {
            Some(rgb) => {
                if !same_color(cur, Some(rgb)) {
                    if cur.is_some() {
                        push_color_close(out, m);
                    }
                    push_color_open(out, m, rgb);
                    cur = Some(rgb);
                }
            },
            None => {
                if cur.is_some() {
                    push_color_close(out, m);
                    cur = None;
                }
            },
        }
        push_char_text(out, m, cell.ch);
        proof {
            let (pre, next) = color_step(m, cell.color, old_cur);
            assert(next == cur);
            assert(out@ =~= before + pre + char_text(m, cell.ch));
            assert(colored_run(m, rest, old_cur) == pre + char_text(m, cell.ch) + colored_run(
                m,
                row@.skip(j + 1),
                cur,
            ));
            assert(out@ + colored_run(m, row@.skip(j + 1), cur) =~= before + colored_run(
                m,
                rest,
                old_cur,
            ));
        }
        j = j + 1;
    }
    if cur.is_some() {
        push_color_close(out, m);
    }
    proof {
        assert(row@.skip(row@.len() as int) =~= Seq::<AsciiCell>::empty());
    }
}

/// Appends the markup of a grid, rows joined by newlines.
fn push_colored_grid(out: &mut String, m: Markup, grid: &[Vec<AsciiCell>])
    ensures
        final(out)@ == old(out)@ + colored_grid(m, grid@),
{
    let ghost start = old(out)@;
    let mut i: usize = 0;
    while i < grid.len()
        invariant
            i <= grid@.len(),
            out@ == start + colored_grid(m, grid@.subrange(0, i as int)),
        decreases grid@.len() - i,
    {
        if i > 0 {
            push_char(out, '\n');
        }
        let row = &grid[i];
        push_colored_row(out, m, row.as_slice());
        proof {
            let rows = grid@.subrange(0, i as int).map_values(|r: Vec<AsciiCell>| colored_row(m, r@));
            lemma_joined_push(rows, colored_row(m, row@));
            assert(grid@.subrange(0, i + 1).map_values(|r: Vec<AsciiCell>| colored_row(m, r@))
                =~= rows.push(colored_row(m, row@)));
            assert(out@ =~= start + colored_grid(m, grid@.subrange(0, i + 1)));
        }
        i = i + 1;
    }
    assert(grid@.subrange(0, grid@.len() as int) =~= grid@);
}

/// Convert grid to ANSI 24-bit colored text.
/// Consecutive cells with the same color share a single escape prefix.
pub fn grid_to_ansi(grid: &[Vec<AsciiCell>]) -> (out: String)
    ensures
        out@ == colored_grid(Markup::Ansi, grid@),
{
    let mut out = String::new();
    push_colored_grid(&mut out, Markup::Ansi, grid);
    assert(out@ =~= colored_grid(Markup::Ansi, grid@));
    out
}

/// `s` with every SGR escape sequence taken out, reading from a state inside
/// (`in_seq`) or outside such a sequence: a sequence is ESC, '[', and the
/// characters up to and including the next 'm'.
pub open spec fn strip_sgr_from(s: Seq<char>, in_seq: bool) -> Seq<char>
    decreases s.len(),
{
    if s.len() == 0 {
        Seq::empty()
    } else if in_seq {
        strip_sgr_from(s.drop_first(), s[0] != 'm')
    } else if s[0] == '\x1b' && s.len() >= 2 && s[1] == '[' {
        strip_sgr_from(s.skip(2), true)
    } else {
        seq![s[0]] + strip_sgr_from(s.drop_first(), false)
    }
}

/// `s` with every SGR escape sequence ("ESC [ ... m") taken out.
pub open spec fn strip_sgr(s: Seq<char>) -> Seq<char> {
    strip_sgr_from(s, false)
}

proof fn lemma_strip_inside(body: Seq<char>, rest: Seq<char>)
    requires
        forall|k: int| 0 <= k < body.len() ==> body[k] != 'm',
    ensures
        strip_sgr_from(body + seq!['m'] + rest, true) == strip_sgr_from(rest, false),
    decreases body.len(),
{
    let t = body + seq!['m'] + rest;
    if body.len() == 0 {
        assert(t.drop_first() =~= rest);
    } else {
        assert(t.drop_first() =~= body.drop_first() + seq!['m'] + rest);
        lemma_strip_inside(body.drop_first(), rest);
    }
}

/// An escape sequence at the front is taken out whole.
proof fn lemma_strip_sequence(body: Seq<char>, rest: Seq<char>)
    requires
        forall|k: int| 0 <= k < body.len() ==> body[k] != 'm',
    ensures
        strip_sgr_from(seq!['\x1b', '['] + body + seq!['m'] + rest, false) == strip_sgr_from(rest, false),
{
    let t = seq!['\x1b', '['] + body + seq!['m'] + rest;
    assert(t.skip(2) =~= body + seq!['m'] + rest);
    lemma_strip_inside(body, rest);
}

proof fn lemma_decimal_digits(n: nat)
    ensures
        forall|k: int| 0 <= k < decimal(n).len() ==> decimal(n)[k] != 'm' && decimal(n)[k] != '\x1b',
    decreases n,
{
    let d = n % 10;
    assert(digit_char(d) as int == d + 48);
    if n >= 10 {
        lemma_decimal_digits(n / 10);
        let p = decimal(n / 10);
        assert forall|k: int| 0 <= k < decimal(n).len() implies decimal(n)[k] != 'm' && decimal(n)[k]
            != '\x1b' by {
            if k < p.len() {
                assert(decimal(n)[k] == p[k]);
            }
        }
    }
}

/// The ANSI color codes vanish when escape sequences are taken out.
proof fn lemma_strip_color_open(rgb: (u8, u8, u8), rest: Seq<char>)
    ensures
        strip_sgr_from(color_open(Markup::Ansi, rgb) + rest, false) == strip_sgr_from(rest, false),
{
    reveal_strlit("\x1b[38;2;");
    lemma_decimal_digits(rgb.0 as nat);
    lemma_decimal_digits(rgb.1 as nat);
    lemma_decimal_digits(rgb.2 as nat);
    let body = seq!['3', '8', ';', '2', ';'] + decimal(rgb.0 as nat) + seq![';'] + decimal(rgb.1 as nat)
        + seq![';'] + decimal(rgb.2 as nat);
    assert forall|k: int| 0 <= k < body.len() implies body[k] != 'm' by {
        let a = 5 + decimal(rgb.0 as nat).len();
        let b = a + 1 + decimal(rgb.1 as nat).len();
        if 5 <= k < a {
            assert(body[k] == decimal(rgb.0 as nat)[k - 5]);
        } else if a + 1 <= k < b {
            assert(body[k] == decimal(rgb.1 as nat)[k - a - 1]);
        } else if b + 1 <= k {
            assert(body[k] == decimal(rgb.2 as nat)[k - b - 1]);
        }
    }
    assert(color_open(Markup::Ansi, rgb) + rest =~= seq!['\x1b', '['] + body + seq!['m'] + rest);
    lemma_strip_sequence(body, rest);
}

proof fn lemma_strip_color_close(rest: Seq<char>)
    ensures
        strip_sgr_from(color_close(Markup::Ansi) + rest, false) == strip_sgr_from(rest, false),
{
    reveal_strlit("\x1b[0m");
    assert(color_close(Markup::Ansi) + rest =~= seq!['\x1b', '['] + seq!['0'] + seq!['m'] + rest);
    lemma_strip_sequence(seq!['0'], rest);
}

/// A character other than ESC is kept.
proof fn lemma_strip_plain(c: char, rest: Seq<char>)
    requires
        c != '\x1b',
    ensures
        strip_sgr_from(seq![c] + rest, false) == seq![c] + strip_sgr_from(rest, false),
{
    assert((seq![c] + rest).drop_first() =~= rest);
}

/// Whether no cell of the row holds ESC.
pub open spec fn row_without_escape(row: Seq<AsciiCell>) -> bool {
    forall|k: int| 0 <= k < row.len() ==> row[k].ch != '\x1b'
}

proof fn lemma_strip_run(cells: Seq<AsciiCell>, cur: Option<(u8, u8, u8)>, rest: Seq<char>)
    requires
        row_without_escape(cells),
    ensures
        strip_sgr_from(colored_run(Markup::Ansi, cells, cur) + rest, false) == row_text(cells)
            + strip_sgr_from(rest, false),
    decreases cells.len(),
{
    if cells.len() == 0 {
        assert(row_text(cells) =~= Seq::<char>::empty());
        if cur is Some {
            lemma_strip_color_close(rest);
        } else {
            assert(colored_run(Markup::Ansi, cells, cur) + rest =~= rest);
        }
        assert(row_text(cells) + strip_sgr_from(rest, false) =~= strip_sgr_from(rest, false));
    } else {
        let (pre, next) = color_step(Markup::Ansi, cells[0].color, cur);
        let tail = colored_run(Markup::Ansi, cells.drop_first(), next) + rest;
        assert(row_without_escape(cells.drop_first()));
        lemma_strip_run(cells.drop_first(), next, rest);
        lemma_strip_plain(cells[0].ch, tail);
        let after = seq![cells[0].ch] + tail;
        assert(colored_run(Markup::Ansi, cells, cur) + rest =~= pre + after);
        match cells[0].color {
            Some(rgb) => {
                if cur != Some(rgb) {
                    lemma_strip_color_open(rgb, after);
                    if cur is Some {
                        assert(pre + after =~= color_close(Markup::Ansi) + (color_open(Markup::Ansi, rgb)
                            + after));
                        lemma_strip_color_close(color_open(Markup::Ansi, rgb) + after);
                    }
                } else {
                    assert(pre + after =~= after);
                }
            },
            None => {
                if cur is Some {
                    lemma_strip_color_close(after);
                } else {
                    assert(pre + after =~= after);
                }
            },
        }
        assert(row_text(cells) =~= seq![cells[0].ch] + row_text(cells.drop_first()));
        assert(row_text(cells) + strip_sgr_from(rest, false) =~= seq![cells[0].ch] + (row_text(
            cells.drop_first(),
        ) + strip_sgr_from(rest, false)));
    }
}

proof fn lemma_strip_grid_rest(grid: Seq<Vec<AsciiCell>>, rest: Seq<char>)
    requires
        forall|r: int| 0 <= r < grid.len() ==> row_without_escape(#[trigger] grid[r]@),
    ensures
        strip_sgr_from(colored_grid(Markup::Ansi, grid) + rest, false) == grid_text(grid) + strip_sgr_from(
            rest,
            false,
        ),
    decreases grid.len(),
{
    let marks = grid.map_values(|r: Vec<AsciiCell>| colored_row(Markup::Ansi, r@));
    let texts = grid.map_values(|r: Vec<AsciiCell>| row_text(r@));
    if grid.len() == 0 {
        assert(colored_grid(Markup::Ansi, grid) + rest =~= rest);
        assert(grid_text(grid) =~= Seq::<char>::empty());
        assert(grid_text(grid) + strip_sgr_from(rest, false) =~= strip_sgr_from(rest, false));
    } else if grid.len() == 1 {
        assert(row_without_escape(grid[0]@));
        lemma_strip_run(grid[0]@, None, rest);
    } else {
        let g = grid.drop_last();
        let last = grid.last()@;
        assert(marks.drop_last() =~= g.map_values(|r: Vec<AsciiCell>| colored_row(Markup::Ansi, r@)));
        assert(texts.drop_last() =~= g.map_values(|r: Vec<AsciiCell>| row_text(r@)));
        assert(forall|r: int| 0 <= r < g.len() ==> #[trigger] g[r] == grid[r]);
        let tail = seq!['\n'] + colored_row(Markup::Ansi, last) + rest;
        assert(colored_grid(Markup::Ansi, grid) + rest =~= colored_grid(Markup::Ansi, g) + tail);
        lemma_strip_grid_rest(g, tail);
        assert(row_without_escape(last));
        lemma_strip_run(last, None, rest);
        assert(tail =~= seq!['\n'] + (colored_row(Markup::Ansi, last) + rest));
        lemma_strip_plain('\n', colored_row(Markup::Ansi, last) + rest);
        assert(grid_text(grid) + strip_sgr_from(rest, false) =~= grid_text(g) + (seq!['\n'] + (
        row_text(last) + strip_sgr_from(rest, false))));
    }
}

/// Taking the SGR escape sequences out of the ANSI export leaves the plain
/// text export, for a grid with no ESC character in its cells; a grid with
/// no colored cell exports to exactly its plain text.
pub proof fn lemma_ansi_strips_to_text(grid: Seq<Vec<AsciiCell>>)
    requires
        forall|r: int| 0 <= r < grid.len() ==> row_without_escape(#[trigger] grid[r]@),
    ensures
        strip_sgr(colored_grid(Markup::Ansi, grid)) == grid_text(grid),
        (forall|r: int, c: int| 0 <= r < grid.len() && 0 <= c < grid[r]@.len() ==> (#[trigger] grid[r]@[c]).color
            is None) ==> colored_grid(Markup::Ansi, grid) == grid_text(grid),
{
    lemma_strip_grid_rest(grid, Seq::empty());
    assert(colored_grid(Markup::Ansi, grid) + Seq::<char>::empty() =~= colored_grid(Markup::Ansi, grid));
    assert(grid_text(grid) + Seq::<char>::empty() =~= grid_text(grid));
    if forall|r: int, c: int| 0 <= r < grid.len() && 0 <= c < grid[r]@.len() ==> (#[trigger] grid[r]@[c]).color
        is None {
        assert forall|r: int| 0 <= r < grid.len() implies colored_row(Markup::Ansi, #[trigger] grid[r]@)
            == row_text(grid[r]@) by {
            lemma_uncolored_run(grid[r]@);
        }
        let marks = grid.map_values(|r: Vec<AsciiCell>| colored_row(Markup::Ansi, r@));
        let texts = grid.map_values(|r: Vec<AsciiCell>| row_text(r@));
        assert(marks =~= texts);
    }
}

proof fn lemma_uncolored_run(cells: Seq<AsciiCell>)
    requires
        forall|c: int| 0 <= c < cells.len() ==> (#[trigger] cells[c]).color is None,
    ensures
        colored_run(Markup::Ansi, cells, None) == row_text(cells),
    decreases cells.len(),
{
    if cells.len() == 0 {
        assert(row_text(cells) =~= Seq::<char>::empty());
    } else {
        assert(forall|c: int| 0 <= c < cells.drop_first().len() ==> #[trigger] cells.drop_first()[c] == cells[c
            + 1]);
        lemma_uncolored_run(cells.drop_first());
        assert(row_text(cells) =~= seq![cells[0].ch] + row_text(cells.drop_first()));
    }
}

/// Start of an exported HTML document.
pub open spec fn html_head() -> Seq<char> {
    "<!DOCTYPE html>\n<html><head><meta charset=\"utf-8\"><title>txxxt</title></head>\n<body style=\"margin:0;padding:16px;background:#000\">\n<pre style=\"font-family:'Courier New',monospace;font-size:14px;line-height:1.1;color:#ccc\">\n"@
}

/// End of an exported HTML document.
pub open spec fn html_tail() -> Seq<char> {
    "\n</pre>\n</body></html>\n"@
}

/// Convert grid to an HTML document with colored spans.
pub fn grid_to_html(grid: &[Vec<AsciiCell>]) -> (out: String)
    ensures
        out@ == html_head() + colored_grid(Markup::Html, grid@) + html_tail(),
{
    let mut out = String::new();
    out.append(
        "<!DOCTYPE html>\n<html><head><meta charset=\"utf-8\"><title>txxxt</title></head>\n<body style=\"margin:0;padding:16px;background:#000\">\n<pre style=\"font-family:'Courier New',monospace;font-size:14px;line-height:1.1;color:#ccc\">\n",
    );
    push_colored_grid(&mut out, Markup::Html, grid);
    out.append("\n</pre>\n</body></html>\n");
    assert(out@ =~= html_head() + colored_grid(Markup::Html, grid@) + html_tail());
    out
}

/// The file formats a grid is exported to.
#[derive(Debug, Clone, Copy, PartialEq, Eq, Structural)]
pub enum ExportFormat {
    Html,
    Text,
    Ansi,
}

/// The format an output path asks for: `.html` gives HTML, `.txt` plain
/// text, `.ansi` ANSI-colored text, and any other ending HTML.
pub open spec fn format_for_path(path: Seq<char>) -> ExportFormat {
    if has_suffix(path, ".html"@) {
        ExportFormat::Html
    } else if has_suffix(path, ".txt"@) {
        ExportFormat::Text
    } else if has_suffix(path, ".ansi"@) {
        ExportFormat::Ansi
    } else {
        ExportFormat::Html
    }
}

/// The text of a grid in a format.
pub open spec fn exported(f: ExportFormat, grid: Seq<Vec<AsciiCell>>) -> Seq<char> {
    match f {
        ExportFormat::Html => html_head() + colored_grid(Markup::Html, grid) + html_tail(),
        ExportFormat::Text => grid_text(grid),
        ExportFormat::Ansi => colored_grid(Markup::Ansi, grid),
    }
}

/// The format to write to `path`, chosen by its ending.
pub fn format_for(path: &str) -> (f: ExportFormat)
    ensures
        f == format_for_path(path@),
{
    let p = chars_of(path);
    let html = chars_of(".html");
    let txt = chars_of(".txt");
    let ansi = chars_of(".ansi");
    if ends_with(p.as_slice(), html.as_slice()) {
        ExportFormat::Html
    } else if ends_with(p.as_slice(), txt.as_slice()) {
        ExportFormat::Text
    } else if ends_with(p.as_slice(), ansi.as_slice()) {
        ExportFormat::Ansi
    } else {
        ExportFormat::Html
    }
}

/// The grid written in format `f`.
pub fn export_grid(grid: &[Vec<AsciiCell>], f: ExportFormat) -> (out: String)
    ensures
        out@ == exported(f, grid@),
{
    match f {
        ExportFormat::Html => grid_to_html(grid),
        ExportFormat::Text => grid_to_text(grid),
        ExportFormat::Ansi => grid_to_ansi(grid),
    }
}

/// Character of the PIP frame at offset (dx, dy) inside a `pip_w` × `pip_h`
/// box, or `None` for the interior.
pub open spec fn pip_border(pip_w: int, pip_h: int, dx: int, dy: int) -> Option<char> {
    if dy == 0 && dx == 0 {
        Some('╭')
    } else if dy == 0 && dx == pip_w - 1 {
        Some('╮')
    } else if dy == pip_h - 1 && dx == 0 {
        Some('╰')
    } else if dy == pip_h - 1 && dx == pip_w - 1 {
        Some('╯')
    } else if dy == 0 || dy == pip_h - 1 {
        Some('─')
    } else if dx == 0 || dx == pip_w - 1 {
        Some('│')
    } else {
        None
    }
}

/// The cell drawn at offset (dx, dy) of the PIP box: border characters on the
/// frame, the scaled PIP content inside, blank where the content is missing.
pub open spec fn pip_cell(scaled: Seq<Seq<AsciiCell>>, pip_w: int, pip_h: int, dx: int, dy: int) -> AsciiCell {
    match pip_border(pip_w, pip_h, dx, dy) {
        Some(ch) => AsciiCell { ch, color: None },
        None => {
            let iy = dy - 1;
            let ix = dx - 1;
            if iy < scaled.len() && ix < scaled[iy].len() {
                scaled[iy][ix]
            } else {
                AsciiCell { ch: ' ', color: None }
            }
        },
    }
}

/// Whether the PIP step draws anything at all.
pub open spec fn pip_drawn(pip: Seq<Vec<AsciiCell>>, pip_w: int, pip_h: int) -> bool {
    pip_w >= 3 && pip_h >= 3 && pip.len() > 0
}

/// The composite cell at (x, y): a PIP cell inside the box and inside the
/// base's first-row width and row count, the base cell elsewhere.
pub open spec fn composite_cell(
    base: Seq<Vec<AsciiCell>>,
    pip: Seq<Vec<AsciiCell>>,
    pip_x: int,
    pip_y: int,
    pip_w: int,
    pip_h: int,
    x: int,
    y: int,
) -> AsciiCell {
    let base_w = if base.len() == 0 {
        0
    } else {
        base[0]@.len() as int
    };
    if pip_drawn(pip, pip_w, pip_h) && pip_x <= x < pip_x + pip_w && pip_y <= y < pip_y + pip_h && x
        < base_w {
        pip_cell(rescaled(pip, pip_w - 2, pip_h - 2), pip_w, pip_h, x - pip_x, y - pip_y)
    } else {
        base[y]@[x]
    }
}

/// What `composite_pip` needs of its arguments to run: the PIP content can be
/// rescaled, and every base row the box covers reaches the box's right edge
/// (or the width of the first row, if that comes first).
pub open spec fn composite_allowed(
    base: Seq<Vec<AsciiCell>>,
    pip: Seq<Vec<AsciiCell>>,
    pip_x: int,
    pip_y: int,
    pip_w: int,
    pip_h: int,
) -> bool {
    pip_drawn(pip, pip_w, pip_h) ==> {
        &&& rescale_allowed(pip, pip_w - 2, pip_h - 2)
        &&& forall|y: int|
            pip_y <= y < pip_y + pip_h && 0 <= y < base.len() && pip_x < base[0]@.len() ==> {
                let right = if pip_x + pip_w < base[0]@.len() {
                    pip_x + pip_w
                } else {
                    base[0]@.len() as int
                };
                right <= #[trigger] base[y]@.len()
            }
    }
}

/// Composite a PIP overlay onto a base grid (like the call screen).
/// Returns a new grid with the PIP baked in at the specified position and size.
pub fn composite_pip(
    base: &[Vec<AsciiCell>],
    pip: &[Vec<AsciiCell>],
    pip_x: usize,
    pip_y: usize,
    pip_w: usize,
    pip_h: usize,
) -> (result: Vec<Vec<AsciiCell>>)
    requires
        composite_allowed(base@, pip@, pip_x as int, pip_y as int, pip_w as int, pip_h as int),
    ensures
        result@.len() == base@.len(),
        forall|y: int|
            0 <= y < base@.len() ==> #[trigger] result@[y]@.len() == base@[y]@.len(),
        forall|y: int, x: int|
            0 <= y < base@.len() && 0 <= x < base@[y]@.len() ==> #[trigger] result@[y]@[x]
                == composite_cell(base@, pip@, pip_x as int, pip_y as int, pip_w as int, pip_h as int, x, y),
{
    let inner_w = if pip_w >= 2 {
        pip_w - 2
    } else {
        0
    };
    let inner_h = if pip_h >= 2 {
        pip_h - 2
    } else {
        0
    };
    let drawn = inner_w != 0 && inner_h != 0 && pip.len() != 0;
    let scaled: Vec<Vec<AsciiCell>> = if drawn {
        rescale_grid(pip, inner_w, inner_h)
    } else {
        Vec::new()
    };
    let ghost sc = scaled@.map_values(|r: Vec<AsciiCell>| r@);
    let base_h = base.len();
    let base_w = if base_h == 0 {
        0
    } else {
        base[0].len()
    };
    let mut result: Vec<Vec<AsciiCell>> = Vec::new();
    let mut y: usize = 0;
    while y < base_h
        invariant
            base_h == base@.len(),
            base_w == (if base_h == 0 {
                0
            } else {
                base@[0]@.len() as int
            }),
            drawn == pip_drawn(pip@, pip_w as int, pip_h as int),
            drawn ==> sc == rescaled(pip@, pip_w - 2, pip_h - 2),
            sc == scaled@.map_values(|r: Vec<AsciiCell>| r@),
            composite_allowed(base@, pip@, pip_x as int, pip_y as int, pip_w as int, pip_h as int),
            y <= base_h,
            result@.len() == y,
            forall|yy: int| 0 <= yy < y ==> #[trigger] result@[yy]@.len() == base@[yy]@.len(),
            forall|yy: int, x: int|
                0 <= yy < y && 0 <= x < base@[yy]@.len() ==> #[trigger] result@[yy]@[x]
                    == composite_cell(base@, pip@, pip_x as int, pip_y as int, pip_w as int, pip_h as int, x, yy),
        decreases base_h - y,
    {
        let src = &base[y];
        let in_rows = drawn && pip_y <= y && y - pip_y < pip_h;
        let mut line: Vec<AsciiCell> = Vec::new();
        let mut x: usize = 0;
        while x < src.len()
            invariant
                base_h == base@.len(),
                y < base_h,
                *src == base@[y as int],
                base_w == base@[0]@.len(),
                drawn == pip_drawn(pip@, pip_w as int, pip_h as int),
                drawn ==> sc == rescaled(pip@, pip_w - 2, pip_h - 2),
                sc == scaled@.map_values(|r: Vec<AsciiCell>| r@),
                in_rows == (drawn && pip_y <= y < pip_y + pip_h),
                x <= src@.len(),
                line@.len() == x,
                forall|xx: int|
                    0 <= xx < x ==> #[trigger] line@[xx] == composite_cell(
                        base@,
                        pip@,
                        pip_x as int,
                        pip_y as int,
                        pip_w as int,
                        pip_h as int,
                        xx,
                        y as int,
                    ),
            decreases src@.len() - x,
        {
            let inside = in_rows && pip_x <= x && x - pip_x < pip_w && x < base_w;
            let cell = if inside {
                let dx = x - pip_x;
                let dy = y - pip_y;
                if dy == 0 && dx == 0 {
                    AsciiCell { ch: '╭', color: None }
                } else if dy == 0 && dx == pip_w - 1 {
                    AsciiCell { ch: '╮', color: None }
                } else if dy == pip_h - 1 && dx == 0 {
                    AsciiCell { ch: '╰', color: None }
                } else if dy == pip_h - 1 && dx == pip_w - 1 {
                    AsciiCell { ch: '╯', color: None }
                } else if dy == 0 || dy == pip_h - 1 {
                    AsciiCell { ch: '─', color: None }
                } else if dx == 0 || dx == pip_w - 1 {
                    AsciiCell { ch: '│', color: None }
                } else {
                    let iy = dy - 1;
                    let ix = dx - 1;
                    if iy < scaled.len() && ix < scaled[iy].len() {
                        proof {
                            assert(sc[iy as int] == scaled@[iy as int]@);
                        }
                        scaled[iy][ix]
                    } else {
                        AsciiCell { ch: ' ', color: None }
                    }
                }
            } else {
                src[x]
            };
            line.push(cell);
            x = x + 1;
        }
        result.push(line);
        y = y + 1;
    }
    result
}

/// Whether `y` is a leap year in the Gregorian calendar.
pub open spec fn is_leap(y: int) -> bool {
    (y % 4 == 0 && y % 100 != 0) || y % 400 == 0
}

/// Days in year `y`.
pub open spec fn year_days(y: int) -> int {
    if is_leap(y) {
        366
    } else {
        365
    }
}

/// Days in month `m` (1..=12) of year `y`.
pub open spec fn month_days(y: int, m: int) -> int {
    if m == 2 {
        if is_leap(y) {
            29
        } else {
            28
        }
    } else if m == 4 || m == 6 || m == 9 || m == 11 {
        30
    } else {
        31
    }
}

/// Days from 1970-01-01 to the first day of year `y`.
pub open spec fn days_before_year(y: int) -> int
    decreases y - 1970,
{
    if y <= 1970 {
        0
    } else {
        days_before_year(y - 1) + year_days(y - 1)
    }
}

/// Days from the first of January to the first day of month `m` of year `y`.
pub open spec fn days_before_month(y: int, m: int) -> int
    decreases m,
{
    if m <= 1 {
        0
    } else {
        days_before_month(y, m - 1) + month_days(y, m - 1)
    }
}

/// A calendar date on or after 1970-01-01.
pub open spec fn valid_date(y: int, m: int, d: int) -> bool {
    y >= 1970 && 1 <= m <= 12 && 1 <= d <= month_days(y, m)
}

/// Days since the Unix epoch of a date.
pub open spec fn days_since_epoch(y: int, m: int, d: int) -> int {
    days_before_year(y) + days_before_month(y, m) + d - 1
}

proof fn lemma_days_before_year_grows(y: int)
    requires
        y >= 1970,
    ensures
        days_before_year(y) >= 365 * (y - 1970),
    decreases y - 1970,
{
    if y > 1970 {
        lemma_days_before_year_grows(y - 1);
    }
}

proof fn lemma_year_is_its_months(y: int)
    ensures
        days_before_month(y, 13) == year_days(y),
{
    reveal_with_fuel(days_before_month, 13);
}

/// Convert days since Unix epoch to (year, month, day).
fn days_to_ymd(days: u64) -> (r: (u64, u64, u64))
    ensures
        valid_date(r.0 as int, r.1 as int, r.2 as int),
        days_since_epoch(r.0 as int, r.1 as int, r.2 as int) == days,
{
    let mut rest: u64 = days;
    let mut year: u64 = 1970;
    loop
        invariant
            year >= 1970,
            days_before_year(year as int) + rest == days,
        ensures
            rest < year_days(year as int),
        decreases rest,
    {
        proof {
            lemma_days_before_year_grows(year as int);
        }
        let days_in_year: u64 = if is_leap_year(year) {
            366
        } else {
            365
        };
        if rest < days_in_year {
            break;
        }
        rest = rest - days_in_year;
        proof {
            lemma_days_before_year_grows(year + 1);
        }
        year = year + 1;
    }
    proof {
        lemma_year_is_its_months(year as int);
    }
    let mut month: u64 = 1;
    loop
        invariant
            1 <= month <= 12,
            rest < year_days(year as int) - days_before_month(year as int, month as int),
            days_before_year(year as int) + days_before_month(year as int, month as int) + rest == days,
            days_before_month(year as int, 13) == year_days(year as int),
        ensures
            rest < month_days(year as int, month as int),
        decreases 12 - month,
    {
        let md: u64 = if month == 2 {
            if is_leap_year(year) {
                29
            } else {
                28
            }
        } else if month == 4 || month == 6 || month == 9 || month == 11 {
            30
        } else {
            31
        };
        if rest < md {
            break;
        }
        proof {
            reveal_with_fuel(days_before_month, 2);
            if month == 12 {
                assert(days_before_month(year as int, 13) == days_before_month(year as int, 12)
                    + month_days(year as int, 12));
            }
        }
        rest = rest - md;
        month = month + 1;
    }
    (year, month, rest + 1)
}

fn is_leap_year(y: u64) -> (r: bool)
    ensures
        r == is_leap(y as int),
{
    (y % 4 == 0 && y % 100 != 0) || y % 400 == 0
}

/// Convert days since the Unix epoch to (year, month, day).
pub fn days_to_ymd_pub(days: u64) -> (r: (u64, u64, u64))
    ensures
        valid_date(r.0 as int, r.1 as int, r.2 as int),
        days_since_epoch(r.0 as int, r.1 as int, r.2 as int) == days,
{
    days_to_ymd(days)
}

proof fn lemma_months_grow(y: int, m1: int, m2: int)
    requires
        1 <= m1 <= m2 <= 13,
    ensures
        days_before_month(y, m1) <= days_before_month(y, m2),
        m1 < m2 ==> days_before_month(y, m1) + month_days(y, m1) <= days_before_month(y, m2),
    decreases m2 - m1,
{
    if m1 < m2 {
        lemma_months_grow(y, m1, m2 - 1);
        assert(days_before_month(y, m2) == days_before_month(y, m2 - 1) + month_days(y, m2 - 1));
    }
}

proof fn lemma_years_grow(y1: int, y2: int)
    requires
        1970 <= y1 < y2,
    ensures
        days_before_year(y1) + year_days(y1) <= days_before_year(y2),
    decreases y2 - y1,
{
    if y1 + 1 < y2 {
        lemma_years_grow(y1, y2 - 1);
    }
}

proof fn lemma_date_in_year(y: int, m: int, d: int)
    requires
        valid_date(y, m, d),
    ensures
        days_before_year(y) <= days_since_epoch(y, m, d) < days_before_year(y) + year_days(y),
{
    lemma_months_grow(y, m, 13);
    lemma_months_grow(y, 1, m);
    lemma_year_is_its_months(y);
}

/// Two dates on or after 1970-01-01 with the same day count are the same
/// date, so `days_to_ymd_pub` gives back the date whose day count it is given.
pub proof fn lemma_days_since_epoch_injective(y1: int, m1: int, d1: int, y2: int, m2: int, d2: int)
    requires
        valid_date(y1, m1, d1),
        valid_date(y2, m2, d2),
        days_since_epoch(y1, m1, d1) == days_since_epoch(y2, m2, d2),
    ensures
        y1 == y2 && m1 == m2 && d1 == d2,
{
    lemma_date_in_year(y1, m1, d1);
    lemma_date_in_year(y2, m2, d2);
    if y1 < y2 {
        lemma_years_grow(y1, y2);
    } else if y2 < y1 {
        lemma_years_grow(y2, y1);
    }
    assert(y1 == y2);
    if m1 < m2 {
        lemma_months_grow(y1, m1, m2);
    } else if m2 < m1 {
        lemma_months_grow(y1, m2, m1);
    }
}

/// Whether date 1 comes before date 2 on the calendar.
pub open spec fn date_before(y1: int, m1: int, d1: int, y2: int, m2: int, d2: int) -> bool {
    y1 < y2 || (y1 == y2 && (m1 < m2 || (m1 == m2 && d1 < d2)))
}

/// Day counts follow the calendar: of two dates on or after 1970-01-01, the
/// earlier one has the smaller count, so `days_to_ymd_pub` gives later dates
/// for larger day counts.
pub proof fn lemma_days_since_epoch_ordered(y1: int, m1: int, d1: int, y2: int, m2: int, d2: int)
    requires
        valid_date(y1, m1, d1),
        valid_date(y2, m2, d2),
    ensures
        date_before(y1, m1, d1, y2, m2, d2) <==> days_since_epoch(y1, m1, d1) < days_since_epoch(y2, m2, d2),
{
    lemma_date_in_year(y1, m1, d1);
    lemma_date_in_year(y2, m2, d2);
    if y1 < y2 {
        lemma_years_grow(y1, y2);
    } else if y2 < y1 {
        lemma_years_grow(y2, y1);
    } else if m1 < m2 {
        lemma_months_grow(y1, m1, m2);
    } else if m2 < m1 {
        lemma_months_grow(y1, m2, m1);
    }
}

/// The calendar date `days` days after 1970-01-01.
pub open spec fn civil_date(days: int) -> (int, int, int) {
    choose|y: int, m: int, d: int| valid_date(y, m, d) && days_since_epoch(y, m, d) == days
}

proof fn lemma_civil_date(days: int, y: int, m: int, d: int)
    requires
        valid_date(y, m, d),
        days_since_epoch(y, m, d) == days,
    ensures
        civil_date(days) == (y, m, d),
{
    let (y2, m2, d2) = civil_date(days);
    assert(valid_date(y2, m2, d2) && days_since_epoch(y2, m2, d2) == days);
    lemma_days_since_epoch_injective(y, m, d, y2, m2, d2);
}

/// The `YYYYMMDD_HHMMSS` stamp of a Unix time (UTC).
pub open spec fn timestamp_chars(now: u64) -> Seq<char> {
    let (y, m, d) = civil_date((now / 86400) as int);
    let secs = now % 86400;
    decimal_padded(y as nat, 4) + decimal_padded(m as nat, 2) + decimal_padded(d as nat, 2) + seq!['_']
        + decimal_padded((secs / 3600) as nat, 2) + decimal_padded(((secs % 3600) / 60) as nat, 2)
        + decimal_padded((secs % 60) as nat, 2)
}

/// The `YYYY-MM-DD` date of a Unix time (UTC).
pub open spec fn date_chars(now: u64) -> Seq<char> {
    let (y, m, d) = civil_date((now / 86400) as int);
    decimal_padded(y as nat, 4) + seq!['-'] + decimal_padded(m as nat, 2) + seq!['-'] + decimal_padded(
        d as nat,
        2,
    )
}

/// Timestamp string for file names: `YYYYMMDD_HHMMSS` (UTC) of the Unix time `now`.
pub fn timestamp(now: u64) -> (r: String)
    ensures
        r@ == timestamp_chars(now),
{
    let days = now / 86400;
    let day_secs = now % 86400;
    let (year, month, day) = days_to_ymd(days);
    proof {
        lemma_civil_date(days as int, year as int, month as int, day as int);
    }
    let mut r = String::new();
    push_decimal_padded(&mut r, year, 4);
    push_decimal_padded(&mut r, month, 2);
    push_decimal_padded(&mut r, day, 2);
    push_char(&mut r, '_');
    push_decimal_padded(&mut r, day_secs / 3600, 2);
    push_decimal_padded(&mut r, (day_secs % 3600) / 60, 2);
    push_decimal_padded(&mut r, day_secs % 60, 2);
    assert(r@ =~= timestamp_chars(now));
    r
}

/// Today's date as `YYYY-MM-DD` (UTC), for the Unix time `now`.
pub fn date_string(now: u64) -> (r: String)
    ensures
        r@ == date_chars(now),
{
    let (year, month, day) = days_to_ymd(now / 86400);
    proof {
        lemma_civil_date((now / 86400) as int, year as int, month as int, day as int);
    }
    let mut r = String::new();
    push_decimal_padded(&mut r, year, 4);
    push_char(&mut r, '-');
    push_decimal_padded(&mut r, month, 2);
    push_char(&mut r, '-');
    push_decimal_padded(&mut r, day, 2);
    assert(r@ =~= date_chars(now));
    r
}

} // verus!
