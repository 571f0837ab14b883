use txxxt::export::{
    composite_pip, date_string, days_to_ymd_pub, export_grid, format_for, grid_to_ansi, grid_to_html, grid_to_text,
    timestamp, ExportFormat,
};
use txxxt::render::AsciiCell;

fn cell(ch: char) -> AsciiCell {
    AsciiCell { ch, color: None }
}

fn colored(ch: char, rgb: (u8, u8, u8)) -> AsciiCell {
    AsciiCell { ch, color: Some(rgb) }
}

fn text_grid(rows: &[&str]) -> Vec<Vec<AsciiCell>> {
    rows.iter().map(|r| r.chars().map(cell).collect()).collect()
}

#[test]
fn text_joins_rows_with_newlines() {
    let grid = text_grid(&["ab", "cd"]);
    assert_eq!(grid_to_text(&grid), "ab\ncd");
    assert_eq!(grid_to_text(&[]), "");
}

#[test]
fn ansi_shares_escape_between_equal_colors() {
    let grid = vec![
        vec![colored('a', (1, 2, 3)), colored('b', (1, 2, 3)), cell('c'), colored('d', (4, 5, 6))],
        vec![cell('e')],
    ];
    assert_eq!(
        grid_to_ansi(&grid),
        "\x1b[38;2;1;2;3mab\x1b[0mc\x1b[38;2;4;5;6md\x1b[0m\ne"
    );
}

#[test]
fn ansi_switches_color_with_reset() {
    let grid = vec![vec![colored('a', (1, 2, 3)), colored('b', (9, 9, 9))]];
    assert_eq!(grid_to_ansi(&grid), "\x1b[38;2;1;2;3ma\x1b[0m\x1b[38;2;9;9;9mb\x1b[0m");
}

#[test]
fn html_escapes_and_colors() {
    let grid = vec![vec![cell('<'), colored('&', (255, 0, 10)), cell('"')], vec![cell('>')]];
    let head = "<!DOCTYPE html>\n<html><head><meta charset=\"utf-8\"><title>txxxt</title></head>\n<body style=\"margin:0;padding:16px;background:#000\">\n<pre style=\"font-family:'Courier New',monospace;font-size:14px;line-height:1.1;color:#ccc\">\n";
    let body = "&lt;<span style=\"color:rgb(255,0,10)\">&amp;</span>&quot;\n&gt;";
    let tail = "\n</pre>\n</body></html>\n";
    assert_eq!(grid_to_html(&grid), format!("{}{}{}", head, body, tail));
}

#[test]
fn pip_draws_border_and_content() {
    let base = text_grid(&["......", "......", "......", "......"]);
    let pip = text_grid(&["xy", "zw"]);
    let out = composite_pip(&base, &pip, 1, 0, 4, 4);
    let rows: Vec<String> = out.iter().map(|r| r.iter().map(|c| c.ch).collect()).collect();
    assert_eq!(rows, vec![".╭──╮.", ".│xy│.", ".│zw│.", ".╰──╯."]);
}

#[test]
fn pip_clipped_at_base_edge() {
    let base = text_grid(&["....", "...."]);
    let pip = text_grid(&["x"]);
    let out = composite_pip(&base, &pip, 2, 1, 3, 3);
    let rows: Vec<String> = out.iter().map(|r| r.iter().map(|c| c.ch).collect()).collect();
    assert_eq!(rows, vec!["....", "..╭─"]);
}

#[test]
fn pip_too_small_leaves_base() {
    let base = text_grid(&["abc", "def"]);
    let pip = text_grid(&["x"]);
    let out = composite_pip(&base, &pip, 0, 0, 2, 2);
    assert_eq!(grid_to_text(&out), "abc\ndef");
}

#[test]
fn days_to_ymd_known_dates() {
    assert_eq!(days_to_ymd_pub(0), (1970, 1, 1));
    assert_eq!(days_to_ymd_pub(59), (1970, 3, 1));
    assert_eq!(days_to_ymd_pub(11016), (2000, 2, 29));
    assert_eq!(days_to_ymd_pub(19723), (2024, 1, 1));
    assert_eq!(days_to_ymd_pub(19782), (2024, 2, 29));
}

#[test]
fn timestamp_format() {
    assert_eq!(timestamp(0), "19700101_000000");
    assert_eq!(timestamp(1700000000), "20231114_221320");
}

#[test]
fn date_string_format() {
    assert_eq!(date_string(0), "1970-01-01");
    assert_eq!(date_string(1700000000), "2023-11-14");
}

/// Takes every "ESC [ ... m" sequence out of `s`.
fn strip_sgr(s: &str) -> String {
    let mut out = String::new();
    let mut chars = s.chars().peekable();
    while let Some(c) = chars.next() {
        if c == '\x1b' && chars.peek() == Some(&'[') {
            for d in chars.by_ref() {
                if d == 'm' {
                    break;
                }
            }
        } else {
            out.push(c);
        }
    }
    out
}

#[test]
fn ansi_without_escapes_is_plain_text() {
    let g = vec![
        vec![AsciiCell { ch: 'a', color: Some((1, 2, 3)) }, AsciiCell { ch: 'm', color: Some((1, 2, 3)) }],
        vec![AsciiCell { ch: 'b', color: None }, AsciiCell { ch: '[', color: Some((200, 0, 40)) }],
    ];
    assert_eq!(strip_sgr(&grid_to_ansi(&g)), grid_to_text(&g));
    let plain = vec![vec![cell('x'), cell('y')], vec![cell('z')]];
    assert_eq!(grid_to_ansi(&plain), grid_to_text(&plain));
}

#[test]
fn output_format_follows_file_ending() {
    assert_eq!(format_for("out.html"), ExportFormat::Html);
    assert_eq!(format_for("out.txt"), ExportFormat::Text);
    assert_eq!(format_for("a/b.ansi"), ExportFormat::Ansi);
    assert_eq!(format_for("picture"), ExportFormat::Html);
    let g = vec![vec![AsciiCell { ch: 'q', color: Some((9, 9, 9)) }]];
    assert_eq!(export_grid(&g, ExportFormat::Text), grid_to_text(&g));
    assert_eq!(export_grid(&g, ExportFormat::Ansi), grid_to_ansi(&g));
    assert_eq!(export_grid(&g, ExportFormat::Html), grid_to_html(&g));
}

#[test]
fn later_day_counts_give_later_dates() {
    let mut prev = days_to_ymd_pub(0);
    assert_eq!(prev, (1970, 1, 1));
    for n in 1..3000u64 {
        let d = days_to_ymd_pub(n);
        assert!(d > prev);
        prev = d;
    }
}
