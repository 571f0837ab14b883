use txxxt::net::protocol::{decode_frame, encode_frame, frame_to_grid, rescale_grid};
use txxxt::render::AsciiCell;

fn make_grid(width: usize, height: usize, ch: char) -> Vec<Vec<AsciiCell>> {
    (0..height)
        .map(|_| (0..width).map(|_| AsciiCell { ch, color: None }).collect())
        .collect()
}

fn make_color_grid(width: usize, height: usize, ch: char, rgb: (u8, u8, u8)) -> Vec<Vec<AsciiCell>> {
    (0..height)
        .map(|_| (0..width).map(|_| AsciiCell { ch, color: Some(rgb) }).collect())
        .collect()
}

#[test]
fn encode_decode_roundtrip() {
    let grid = make_grid(4, 3, 'A');
    let encoded = encode_frame(&grid);
    let (frame, consumed) = decode_frame(&encoded).expect("decode failed");
    assert_eq!(consumed, encoded.len());
    assert_eq!(frame.width, 4);
    assert_eq!(frame.height, 3);
    assert_eq!(frame.cells.len(), 12);
    assert!(frame.cells.iter().all(|c| c.ch == 'A' && c.color.is_none()));
}

#[test]
fn color_roundtrip() {
    let grid = make_color_grid(2, 2, '#', (255, 128, 0));
    let encoded = encode_frame(&grid);
    let (frame, _) = decode_frame(&encoded).expect("decode failed");
    assert_eq!(frame.cells.len(), 4);
    for cell in &frame.cells {
        assert_eq!(cell.ch, '#');
        assert_eq!(cell.color, Some((255, 128, 0)));
    }
}

#[test]
fn unicode_roundtrip() {
    // Block characters, outline chars, dots — all non-ASCII.
    let chars = vec!['░', '▒', '▓', '█', '─', '╱', '│', '╲', '●', '◉'];
    for ch in chars {
        let grid = make_grid(2, 2, ch);
        let encoded = encode_frame(&grid);
        let (frame, _) = decode_frame(&encoded).expect("decode failed");
        let restored = frame_to_grid(&frame);
        assert_eq!(restored[0][0].ch, ch, "roundtrip failed for {:?}", ch);
    }
}

#[test]
fn frame_to_grid_roundtrip() {
    let grid = make_color_grid(3, 2, 'X', (10, 20, 30));
    let encoded = encode_frame(&grid);
    let (frame, _) = decode_frame(&encoded).unwrap();
    let restored = frame_to_grid(&frame);
    assert_eq!(restored.len(), 2);
    assert_eq!(restored[0].len(), 3);
    assert_eq!(restored[0][0].ch, 'X');
    assert_eq!(restored[0][0].color, Some((10, 20, 30)));
}

#[test]
fn empty_frame_roundtrip() {
    let grid: Vec<Vec<AsciiCell>> = vec![];
    let encoded = encode_frame(&grid);
    let (frame, consumed) = decode_frame(&encoded).expect("decode failed");
    assert_eq!(consumed, encoded.len());
    assert_eq!(frame.width, 0);
    assert_eq!(frame.height, 0);
    assert_eq!(frame.cells.len(), 0);
}

#[test]
fn partial_buffer_returns_none() {
    let grid = make_grid(5, 5, 'X');
    let encoded = encode_frame(&grid);
    assert!(decode_frame(&encoded[..encoded.len() - 1]).is_none());
    assert!(decode_frame(&encoded[..4]).is_none());
    assert!(decode_frame(&[]).is_none());
}

#[test]
fn rescale_grid_upscale() {
    let grid = make_grid(2, 2, 'A');
    let scaled = rescale_grid(&grid, 4, 4);
    assert_eq!(scaled.len(), 4);
    assert_eq!(scaled[0].len(), 4);
    assert!(scaled.iter().flatten().all(|c| c.ch == 'A'));
}

#[test]
fn rescale_grid_downscale() {
    let grid = make_grid(10, 10, 'B');
    let scaled = rescale_grid(&grid, 3, 3);
    assert_eq!(scaled.len(), 3);
    assert_eq!(scaled[0].len(), 3);
    assert!(scaled.iter().flatten().all(|c| c.ch == 'B'));
}

#[test]
fn rescale_grid_empty() {
    let grid: Vec<Vec<AsciiCell>> = vec![];
    let scaled = rescale_grid(&grid, 5, 5);
    assert!(scaled.is_empty());
}

#[test]
fn header_bytes_are_little_endian() {
    let grid = make_grid(3, 2, 'Z');
    let encoded = encode_frame(&grid);
    assert_eq!(encoded.len(), 8 + 6 * 8);
    assert_eq!(&encoded[..8], &[3, 0, 2, 0, 48, 0, 0, 0]);
    // Cell: 'Z' as u32 LE, flag 0, then three zero colour bytes.
    assert_eq!(&encoded[8..16], &[0x5a, 0, 0, 0, 0, 0, 0, 0]);
}

#[test]
fn colored_cell_bytes() {
    let grid = make_color_grid(1, 1, 'é', (1, 2, 3));
    let encoded = encode_frame(&grid);
    assert_eq!(&encoded[8..16], &[0xe9, 0, 0, 0, 1, 1, 2, 3]);
}

#[test]
fn decode_ignores_trailing_bytes() {
    let grid = make_grid(2, 1, 'q');
    let mut encoded = encode_frame(&grid);
    let n = encoded.len();
    encoded.extend_from_slice(&[9, 9, 9]);
    let (frame, consumed) = decode_frame(&encoded).unwrap();
    assert_eq!(consumed, n);
    assert_eq!(frame.cells.len(), 2);
}

#[test]
fn decode_turns_invalid_char_into_space() {
    // Header for one cell, then a surrogate code point.
    let buf = [1u8, 0, 1, 0, 8, 0, 0, 0, 0x00, 0xd8, 0, 0, 0, 0, 0, 0];
    let (frame, consumed) = decode_frame(&buf).unwrap();
    assert_eq!(consumed, 16);
    assert_eq!(frame.cells[0].ch, ' ');
    assert_eq!(frame.cells[0].color, None);
}

#[test]
fn frame_to_grid_pads_missing_cells() {
    // Header claims 2x2 but carries one cell.
    let buf = [2u8, 0, 2, 0, 8, 0, 0, 0, 0x41, 0, 0, 0, 0, 0, 0, 0];
    let (frame, _) = decode_frame(&buf).unwrap();
    let grid = frame_to_grid(&frame);
    assert_eq!(grid.len(), 2);
    assert_eq!(grid[0][0].ch, 'A');
    assert_eq!(grid[0][1].ch, ' ');
    assert_eq!(grid[1][1].ch, ' ');
}

#[test]
fn rescale_picks_nearest_source_cell() {
    let grid: Vec<Vec<AsciiCell>> = vec![
        vec![AsciiCell { ch: 'a', color: None }, AsciiCell { ch: 'b', color: None }],
        vec![AsciiCell { ch: 'c', color: None }, AsciiCell { ch: 'd', color: None }],
    ];
    let scaled = rescale_grid(&grid, 4, 1);
    let row: String = scaled[0].iter().map(|c| c.ch).collect();
    assert_eq!(row, "aabb");
}

#[test]
fn rescale_to_own_size_is_identity() {
    let g: Vec<Vec<AsciiCell>> = (0..3)
        .map(|r| (0..4).map(|c| AsciiCell { ch: (b'a' + (r * 4 + c) as u8) as char, color: Some((r as u8, c as u8, 7)) }).collect())
        .collect();
    assert_eq!(rescale_grid(&g, 4, 3), g);
}
